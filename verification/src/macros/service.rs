//! The attributes that make a service of a block of methods.

#[allow(unused_imports)]
use crate::macros::shape::{fault, replies, typed_count, typed_place, FaultView};
use crate::macros::shape::{count_typed, find_typed, gives_back, Fault, Input, Spot, TypeShape};
#[allow(unused_imports)]
use crate::text::blank;
use crate::text::{is_blank, same_text};
use vstd::prelude::*;

verus! {

/// Whether a service shares the threads of the node or has one of its own.
#[derive(Debug, Clone, Copy, PartialEq, Eq, Structural)]
pub enum Flavor {
    Shared,
    Exclusive,
}

/// A method that the kernel calls by its name.
#[derive(Debug, Clone, Copy, PartialEq, Eq, Structural)]
pub enum Hook {
    Init,
    Dispatch,
    Idle,
    Interrupt,
}

/// Which messages a method handles: those of the types that are listed, or all others.
#[derive(Debug, Clone, Copy, PartialEq, Eq, Structural)]
pub enum Route {
    Types,
    Fallback,
}

/// What stands for a message type.
#[derive(Debug)]
pub enum MsgExpr {
    /// A path. `single` says that it has one part only.
    Path { last: String, single: bool },
    /// A call. `callee` is the last part of the path that is called, and `number` the first
    /// argument where it is a number of 8 bits.
    Call { callee: Option<String>, args: usize, number: Option<u8> },
    Other,
}

/// One of the things that can be set for a message in the dashboard.
#[derive(Debug)]
pub enum DebugItem {
    Name(String),
    Example(String),
    Other,
}

/// An attribute that shows a message in the dashboard: by itself, with a list, or with a value.
#[derive(Debug)]
pub enum DebugMeta {
    Bare,
    List(Vec<DebugItem>),
    Value,
}

/// A method.
#[derive(Debug)]
pub struct Method {
    pub name: String,
    pub is_async: bool,
    pub inputs: Vec<Input>,
    pub output: Option<TypeShape>,
    pub debugs: Vec<DebugMeta>,
    pub route: Option<Vec<MsgExpr>>,
}

/// An argument of the attribute.
#[derive(Debug, Clone, Copy, PartialEq, Eq, Structural)]
pub enum ServiceArg {
    Crate,
    Name,
    Factory,
}

/// The arguments of the attribute.
#[derive(Debug, Clone, Copy, PartialEq, Eq, Structural)]
pub struct ServiceArgs {
    pub has_name: bool,
    pub has_factory: bool,
}

impl ServiceArgs {
    /// What follows an argument.
    pub open spec fn after(self, place: usize, key: Seq<char>) -> Result<
        (ServiceArg, ServiceArgs),
        FaultView,
    > {
        if key == "crate"@ {
            Ok((ServiceArg::Crate, self))
        } else if key == "name"@ {
            if self.has_name {
                Err(fault(Spot::Argument(place), "`name` 写了两遍"@))
            } else {
                Ok((ServiceArg::Name, ServiceArgs { has_name: true, ..self }))
            }
        } else if key == "factory"@ {
            if self.has_factory {
                Err(fault(Spot::Argument(place), "`factory` 写了两遍"@))
            } else {
                Ok((ServiceArg::Factory, ServiceArgs { has_factory: true, ..self }))
            }
        } else {
            Err(
                fault(
                    Spot::Argument(place),
                    "只认 `crate`、`name` 与 `factory` 这三个参数"@,
                ),
            )
        }
    }

    /// No argument yet.
    pub fn new() -> (args: ServiceArgs)
        ensures
            !args.has_name,
            !args.has_factory,
    {
        ServiceArgs { has_name: false, has_factory: false }
    }

    /// Takes an argument by its name.
    pub fn take(&mut self, place: usize, key: &str) -> (result: Result<ServiceArg, Fault>)
        ensures
            match old(self).after(place, key@) {
                Ok((arg, next)) => result == Ok::<ServiceArg, Fault>(arg) && *final(self) == next,
                Err(view) => (result matches Err(found) && found@ == view) && *final(self)
                    == *old(self),
            },
    {
        if same_text(key, "crate") {
            return Ok(ServiceArg::Crate);
        }
        if same_text(key, "name") {
            if self.has_name {
                return Err(Fault::new(Spot::Argument(place), "`name` 写了两遍"));
            }
            self.has_name = true;
            return Ok(ServiceArg::Name);
        }
        if same_text(key, "factory") {
            if self.has_factory {
                return Err(Fault::new(Spot::Argument(place), "`factory` 写了两遍"));
            }
            self.has_factory = true;
            return Ok(ServiceArg::Factory);
        }
        Err(
            Fault::new(
                Spot::Argument(place),
                "只认 `crate`、`name` 与 `factory` 这三个参数",
            ),
        )
    }
}

/// What `serde_json` says is wrong with a text, if something is.
pub uninterp spec fn json_error(text: Seq<char>) -> Option<Seq<char>>;

/// Reads a text with `serde_json::from_str` as any value, and writes out its error. Whether it is
/// read and what the error says are functions of the text, and have a name.
#[verifier::external_body]
fn json_fault(text: &str) -> (reason: Option<String>)
    ensures
        match reason {
            Some(reason) => json_error(text@) == Some(reason@),
            None => json_error(text@) is None,
        },
{
    serde_json::from_str::<serde_json::Value>(text).err().map(|error| error.to_string())
}

/// What is set for a message in the dashboard.
#[derive(Debug)]
pub struct DebugAttr {
    pub name: Option<String>,
    pub example: Option<String>,
}

/// What is set for a message in the dashboard.
#[verifier::ext_equal]
pub struct DebugView {
    pub name: Option<Seq<char>>,
    pub example: Option<Seq<char>>,
}

/// What a text says, if there is one.
pub open spec fn text_of(text: Option<String>) -> Option<Seq<char>> {
    match text {
        Some(text) => Some(text@),
        None => None,
    }
}

impl View for DebugAttr {
    type V = DebugView;

    open spec fn view(&self) -> DebugView {
        DebugView { name: text_of(self.name), example: text_of(self.example) }
    }
}

/// What a list of things sets for a message, or the first that is wrong.
pub open spec fn debug_list(items: Seq<DebugItem>) -> Result<DebugView, (int, Seq<char>)>
    decreases items.len(),
{
    if items.len() == 0 {
        Ok(DebugView { name: None, example: None })
    } else {
        match debug_list(items.drop_last()) {
            Err(wrong) => Err(wrong),
            Ok(set) => match items.last() {
                DebugItem::Name(text) => if set.name is Some {
                    Err((items.len() - 1, "`name` 写了两遍"@))
                } else if blank(text@) {
                    Err((items.len() - 1, "调试消息名称不能为空"@))
                } else {
                    Ok(DebugView { name: Some(text@), example: set.example })
                },
                DebugItem::Example(text) => if set.example is Some {
                    Err((items.len() - 1, "`example` 写了两遍"@))
                } else if json_error(text@) is Some {
                    Err(
                        (
                            items.len() - 1,
                            "`example` 必须是合法 JSON："@ + json_error(text@)->Some_0,
                        ),
                    )
                } else {
                    Ok(DebugView { name: set.name, example: Some(text@) })
                },
                DebugItem::Other => Err(
                    (
                        items.len() - 1,
                        "`#[debug]` 只支持 `name = \"...\"` 与 `example = r#\"...\"#`"@,
                    ),
                ),
            },
        }
    }
}

/// What a method sets for its message, or what is wrong.
pub open spec fn debug_of(i: usize, metas: Seq<DebugMeta>) -> Result<Option<DebugView>, FaultView> {
    if metas.len() > 1 {
        Err(fault(Spot::DebugAttribute(i, 1), "同一个处理器只能写一个 `#[debug]`"@))
    } else if metas.len() == 0 {
        Ok(None)
    } else {
        match metas[0] {
            DebugMeta::Bare => Ok(Some(DebugView { name: None, example: None })),
            DebugMeta::List(items) => match debug_list(items@) {
                Ok(set) => Ok(Some(set)),
                Err((place, text)) => Err(fault(Spot::DebugArgument(i, place as usize), text)),
            },
            DebugMeta::Value => Err(
                fault(
                    Spot::DebugAttribute(i, 0),
                    "写成 `#[debug]` 或 `#[debug(name = \"...\", example = r#\"...\"#)]`"@,
                ),
            ),
        }
    }
}

/// A fault in a part of the list is the fault of the list.
proof fn lemma_debug_stays(items: Seq<DebugItem>, count: int)
    requires
        0 <= count <= items.len(),
        debug_list(items.take(count)) is Err,
    ensures
        debug_list(items) == debug_list(items.take(count)),
    decreases items.len() - count,
{
    if count == items.len() {
        assert(items.take(count) =~= items);
    } else {
        assert(items.take(count + 1).drop_last() =~= items.take(count));
        lemma_debug_stays(items, count + 1);
    }
}

/// Reads a list of things that are set for a message.
fn read_debug_list(items: &Vec<DebugItem>) -> (result: Result<DebugAttr, (usize, String)>)
    ensures
        match debug_list(items@) {
            Ok(set) => result matches Ok(found) && found@ == set,
            Err((place, text)) => result matches Err(wrong) && wrong.0 == place && wrong.1@ == text,
        },
{
    let mut name: Option<String> = None;
    let mut example: Option<String> = None;
    let mut i: usize = 0;
    assert(items@.take(0) =~= Seq::empty());
    while i < items.len()
        invariant
            i <= items@.len(),
            debug_list(items@.take(i as int)) == Ok::<DebugView, (int, Seq<char>)>(
                DebugView { name: text_of(name), example: text_of(example) },
            ),
        decreases items@.len() - i,
    {
        assert(items@.take(i + 1).drop_last() =~= items@.take(i as int));
        assert(items@.take(i + 1).last() == items@[i as int]);
        match &items[i] {
            DebugItem::Name(text) => {
                if name.is_some() {
                    proof {
                        lemma_debug_stays(items@, i + 1);
                    }
                    return Err((i, "`name` 写了两遍".to_owned()));
                }
                if is_blank(text.as_str()) {
                    proof {
                        lemma_debug_stays(items@, i + 1);
                    }
                    return Err((i, "调试消息名称不能为空".to_owned()));
                }
                name = Some(text.clone());
            },
            DebugItem::Example(text) => {
                if example.is_some() {
                    proof {
                        lemma_debug_stays(items@, i + 1);
                    }
                    return Err((i, "`example` 写了两遍".to_owned()));
                }
                match json_fault(text.as_str()) {
                    Some(reason) => {
                        proof {
                            lemma_debug_stays(items@, i + 1);
                        }
                        let mut said = "`example` 必须是合法 JSON：".to_owned();
                        said.append(reason.as_str());
                        return Err((i, said));
                    },
                    None => {},
                }
                example = Some(text.clone());
            },
            DebugItem::Other => {
                proof {
                    lemma_debug_stays(items@, i + 1);
                }
                return Err(
                    (
                        i,
                        "`#[debug]` 只支持 `name = \"...\"` 与 `example = r#\"...\"#`".to_owned(),
                    ),
                );
            },
        }
        i += 1;
    }
    assert(items@.take(i as int) =~= items@);
    Ok(DebugAttr { name, example })
}

/// Reads what a method sets for its message.
pub fn read_debug(i: usize, metas: &Vec<DebugMeta>) -> (result: Result<Option<DebugAttr>, Fault>)
    ensures
        match debug_of(i, metas@) {
            Ok(None) => result matches Ok(None),
            Ok(Some(set)) => result matches Ok(Some(found)) && found@ == set,
            Err(view) => result matches Err(found) && found@ == view,
        },
{
    if metas.len() > 1 {
        return Err(
            Fault::new(Spot::DebugAttribute(i, 1), "同一个处理器只能写一个 `#[debug]`"),
        );
    }
    if metas.len() == 0 {
        return Ok(None);
    }
    match &metas[0] {
        DebugMeta::Bare => Ok(Some(DebugAttr { name: None, example: None })),
        DebugMeta::List(items) => match read_debug_list(items) {
            Ok(set) => Ok(Some(set)),
            Err((place, text)) => Err(Fault { spot: Spot::DebugArgument(i, place), text }),
        },
        DebugMeta::Value => Err(
            Fault::new(
                Spot::DebugAttribute(i, 0),
                "写成 `#[debug]` 或 `#[debug(name = \"...\", example = r#\"...\"#)]`",
            ),
        ),
    }
}

/// Whether this stands for all other messages.
pub open spec fn is_default(expr: MsgExpr) -> bool {
    match expr {
        MsgExpr::Path { last, single } => single && last@ == "default"@,
        _ => false,
    }
}

/// Which messages a method handles, or what is wrong.
pub open spec fn route_of(i: usize, route: Option<Vec<MsgExpr>>) -> Result<
    Option<Route>,
    FaultView,
> {
    match route {
        None => Ok(None),
        Some(exprs) => if exprs@.len() == 0 {
            Err(
                fault(
                    Spot::RouteAttribute(i),
                    "要写协议号，例如 `#[msg(MsgType::SOCKET)]`，或者写 `#[msg(default)]` 当兜底"@,
                ),
            )
        } else if exprs@.len() == 1 && is_default(exprs@[0]) {
            Ok(Some(Route::Fallback))
        } else {
            Ok(Some(Route::Types))
        },
    }
}

/// Reads which messages a method handles.
pub fn read_route(i: usize, route: &Option<Vec<MsgExpr>>) -> (result: Result<Option<Route>, Fault>)
    ensures
        match route_of(i, *route) {
            Ok(found) => result == Ok::<Option<Route>, Fault>(found),
            Err(view) => result matches Err(found) && found@ == view,
        },
{
    match route {
        None => Ok(None),
        Some(exprs) => {
            if exprs.len() == 0 {
                return Err(
                    Fault::new(
                        Spot::RouteAttribute(i),
                        "要写协议号，例如 `#[msg(MsgType::SOCKET)]`，或者写 `#[msg(default)]` 当兜底",
                    ),
                );
            }
            if exprs.len() == 1 {
                match &exprs[0] {
                    MsgExpr::Path { last, single } => {
                        if *single && same_text(last.as_str(), "default") {
                            return Ok(Some(Route::Fallback));
                        }
                    },
                    _ => {},
                }
            }
            Ok(Some(Route::Types))
        },
    }
}

/// The hook of a name, if it is one.
pub open spec fn hook_named(name: Seq<char>) -> Option<Hook> {
    if name == "init"@ {
        Some(Hook::Init)
    } else if name == "dispatch"@ {
        Some(Hook::Dispatch)
    } else if name == "idle"@ {
        Some(Hook::Idle)
    } else if name == "interrupt"@ {
        Some(Hook::Interrupt)
    } else {
        None
    }
}

/// The hook of a name, or what is wrong: only a service with a thread of its own can idle.
pub open spec fn hook_of(i: usize, name: Seq<char>, flavor: Flavor) -> Result<
    Option<Hook>,
    FaultView,
> {
    match hook_named(name) {
        Some(hook) => if flavor is Shared && (hook is Idle || hook is Interrupt) {
            Err(
                fault(
                    Spot::Method(i),
                    "`idle` / `interrupt` 只有 `#[exclusive]` 认：共享服务跑在 worker 池上，没有自己那条线程可睡"@,
                ),
            )
        } else {
            Ok(Some(hook))
        },
        None => Ok(None),
    }
}

/// Finds the hook of a name.
pub fn read_hook(i: usize, name: &str, flavor: Flavor) -> (result: Result<Option<Hook>, Fault>)
    ensures
        match hook_of(i, name@, flavor) {
            Ok(found) => result == Ok::<Option<Hook>, Fault>(found),
            Err(view) => result matches Err(found) && found@ == view,
        },
{
    let hook = if same_text(name, "init") {
        Hook::Init
    } else if same_text(name, "dispatch") {
        Hook::Dispatch
    } else if same_text(name, "idle") {
        Hook::Idle
    } else if same_text(name, "interrupt") {
        Hook::Interrupt
    } else {
        return Ok(None);
    };
    if flavor == Flavor::Shared && (hook == Hook::Idle || hook == Hook::Interrupt) {
        return Err(
            Fault::new(
                Spot::Method(i),
                "`idle` / `interrupt` 只有 `#[exclusive]` 认：共享服务跑在 worker 池上，没有自己那条线程可睡",
            ),
        );
    }
    Ok(Some(hook))
}

/// The first `self` that is not `&self`.
pub open spec fn wrong_self(inputs: Seq<Input>) -> Option<int>
    decreases inputs.len(),
{
    if inputs.len() == 0 {
        None
    } else {
        match wrong_self(inputs.drop_last()) {
            Some(place) => Some(place),
            None => if inputs.last() is OtherSelf {
                Some(inputs.len() - 1)
            } else {
                None
            },
        }
    }
}

/// Whether one of the parameters is `&self`.
pub open spec fn has_self(inputs: Seq<Input>) -> bool {
    exists|k: int| 0 <= k < inputs.len() && #[trigger] inputs[k] is SharedSelf
}

/// What is wrong with the `self` of a method.
pub open spec fn self_fault(i: usize, inputs: Seq<Input>) -> Option<FaultView> {
    match wrong_self(inputs) {
        Some(place) => Some(
            fault(
                Spot::Parameter(i, place as usize),
                "接收者写 `&self`：宏会按钩子的需要改写成 `self: Arc<Self>`"@,
            ),
        ),
        None => if has_self(inputs) {
            None
        } else {
            Some(
                fault(
                    Spot::Inputs(i),
                    "第一个参数得是 `&self`：服务的方法都是实例方法"@,
                ),
            )
        },
    }
}

/// A wrong `self` in a part of the parameters is the first.
proof fn lemma_wrong_stays(inputs: Seq<Input>, count: int)
    requires
        0 <= count <= inputs.len(),
        wrong_self(inputs.take(count)) is Some,
    ensures
        wrong_self(inputs) == wrong_self(inputs.take(count)),
    decreases inputs.len() - count,
{
    if count == inputs.len() {
        assert(inputs.take(count) =~= inputs);
    } else {
        assert(inputs.take(count + 1).drop_last() =~= inputs.take(count));
        lemma_wrong_stays(inputs, count + 1);
    }
}

/// Checks the `self` of a method.
pub fn check_self(i: usize, inputs: &Vec<Input>) -> (result: Result<(), Fault>)
    ensures
        match self_fault(i, inputs@) {
            Some(view) => result matches Err(found) && found@ == view,
            None => result is Ok,
        },
{
    let mut seen = false;
    let mut k: usize = 0;
    assert(inputs@.take(0) =~= Seq::empty());
    while k < inputs.len()
        invariant
            k <= inputs@.len(),
            wrong_self(inputs@.take(k as int)) is None,
            seen == has_self(inputs@.take(k as int)),
        decreases inputs@.len() - k,
    {
        let ghost part = inputs@.take(k + 1);
        assert(part.drop_last() =~= inputs@.take(k as int));
        assert(part.last() == inputs@[k as int]);
        match &inputs[k] {
            Input::OtherSelf => {
                proof {
                    lemma_wrong_stays(inputs@, k + 1);
                }
                return Err(
                    Fault::new(
                        Spot::Parameter(i, k),
                        "接收者写 `&self`：宏会按钩子的需要改写成 `self: Arc<Self>`",
                    ),
                );
            },
            Input::SharedSelf => {
                assert(part[k as int] is SharedSelf);
                seen = true;
            },
            Input::Typed(_) => {
                proof {
                    if has_self(inputs@.take(k as int)) {
                        let j = choose|j: int|
                            0 <= j < inputs@.take(k as int).len() && inputs@.take(
                                k as int,
                            )[j] is SharedSelf;
                        assert(part[j] is SharedSelf);
                    }
                    if has_self(part) {
                        let j = choose|j: int| 0 <= j < part.len() && part[j] is SharedSelf;
                        assert(inputs@.take(k as int)[j] is SharedSelf);
                    }
                }
            },
        }
        k += 1;
    }
    assert(inputs@.take(k as int) =~= inputs@);
    if !seen {
        return Err(
            Fault::new(Spot::Inputs(i), "第一个参数得是 `&self`：服务的方法都是实例方法"),
        );
    }
    Ok(())
}

/// Whether a message type may not be shown in the dashboard: replies and errors may not.
pub open spec fn forbidden(expr: MsgExpr) -> bool {
    match expr {
        MsgExpr::Path { last, .. } => last@ == "RESPONSE"@ || last@ == "ERROR"@,
        MsgExpr::Call { callee, args, number } => {
            &&& text_of(callee) == Some("MsgType"@)
            &&& args == 1
            &&& number == Some(1u8) || number == Some(6u8)
        },
        MsgExpr::Other => false,
    }
}

/// Whether a message type may not be shown in the dashboard.
pub fn forbidden_debug_type(expr: &MsgExpr) -> (may_not: bool)
    ensures
        may_not == forbidden(*expr),
{
    match expr {
        MsgExpr::Path { last, .. } => same_text(last.as_str(), "RESPONSE") || same_text(
            last.as_str(),
            "ERROR",
        ),
        MsgExpr::Call { callee, args, number } => {
            let is_type = match callee {
                Some(name) => same_text(name.as_str(), "MsgType"),
                None => false,
            };
            let is_number = match number {
                Some(number) => *number == 1 || *number == 6,
                None => false,
            };
            is_type && *args == 1 && is_number
        },
        MsgExpr::Other => false,
    }
}

/// The first message type that may not be shown in the dashboard, or the length.
pub open spec fn first_forbidden(exprs: Seq<MsgExpr>) -> Option<int>
    decreases exprs.len(),
{
    if exprs.len() == 0 {
        None
    } else {
        match first_forbidden(exprs.drop_last()) {
            Some(place) => Some(place),
            None => if forbidden(exprs.last()) {
                Some(exprs.len() - 1)
            } else {
                None
            },
        }
    }
}

/// A forbidden type in a part of the list is the first.
proof fn lemma_forbidden_stays(exprs: Seq<MsgExpr>, count: int)
    requires
        0 <= count <= exprs.len(),
        first_forbidden(exprs.take(count)) is Some,
    ensures
        first_forbidden(exprs) == first_forbidden(exprs.take(count)),
    decreases exprs.len() - count,
{
    if count == exprs.len() {
        assert(exprs.take(count) =~= exprs);
    } else {
        assert(exprs.take(count + 1).drop_last() =~= exprs.take(count));
        lemma_forbidden_stays(exprs, count + 1);
    }
}

/// Looks for a message type that may not be shown in the dashboard.
fn find_forbidden(exprs: &Vec<MsgExpr>) -> (place: Option<usize>)
    ensures
        match place {
            Some(place) => first_forbidden(exprs@) == Some(place as int),
            None => first_forbidden(exprs@) is None,
        },
{
    let mut k: usize = 0;
    assert(exprs@.take(0) =~= Seq::empty());
    while k < exprs.len()
        invariant
            k <= exprs@.len(),
            first_forbidden(exprs@.take(k as int)) is None,
        decreases exprs@.len() - k,
    {
        assert(exprs@.take(k + 1).drop_last() =~= exprs@.take(k as int));
        if forbidden_debug_type(&exprs[k]) {
            proof {
                lemma_forbidden_stays(exprs@, k + 1);
            }
            return Some(k);
        }
        k += 1;
    }
    assert(exprs@.take(k as int) =~= exprs@);
    None
}

/// What a method gets besides the context: the whole message, or what its payload holds.
#[derive(Debug, Clone, Copy, PartialEq, Eq, Structural)]
pub enum Arg {
    Whole,
    Typed,
}

/// How messages are handed to a method.
#[derive(Debug)]
pub struct HandlerPlan {
    pub route: Route,
    /// Whether the method wants the context.
    pub takes_ctx: bool,
    pub arg: Option<Arg>,
    /// Whether what the method gives back is sent back.
    pub replies: bool,
    /// What the message is called in the dashboard, if it is shown there.
    pub debug_name: Option<String>,
    pub debug_example: Option<String>,
}

/// How messages are handed to a method.
#[verifier::ext_equal]
pub struct HandlerView {
    pub route: Route,
    pub takes_ctx: bool,
    pub arg: Option<Arg>,
    pub replies: bool,
    pub debug_name: Option<Seq<char>>,
    pub debug_example: Option<Seq<char>>,
}

impl View for HandlerPlan {
    type V = HandlerView;

    open spec fn view(&self) -> HandlerView {
        HandlerView {
            route: self.route,
            takes_ctx: self.takes_ctx,
            arg: self.arg,
            replies: self.replies,
            debug_name: text_of(self.debug_name),
            debug_example: text_of(self.debug_example),
        }
    }
}

/// What a method gets besides the context.
pub open spec fn arg_of(inputs: Seq<Input>) -> Option<Arg> {
    match typed_place(inputs, 1) {
        Some(place) => if inputs[place] is Typed && inputs[place]->Typed_0.message() {
            Some(Arg::Whole)
        } else {
            Some(Arg::Typed)
        },
        None => None,
    }
}

/// The message types that a method lists.
pub open spec fn listed(route: Option<Vec<MsgExpr>>) -> Seq<MsgExpr> {
    match route {
        Some(exprs) => exprs@,
        None => Seq::empty(),
    }
}

/// How messages are handed to a method, or what is wrong.
pub open spec fn handler_of(
    i: usize,
    method: Method,
    route: Route,
    debug: Option<DebugView>,
) -> Result<HandlerView, FaultView> {
    let arg = arg_of(method.inputs@);
    if !method.is_async {
        Err(fault(Spot::Method(i), "`#[msg]` 的处理函数要写成 `async fn`"@))
    } else if self_fault(i, method.inputs@) is Some {
        Err(self_fault(i, method.inputs@)->Some_0)
    } else if typed_count(method.inputs@) > 2 {
        Err(
            fault(
                Spot::Method(i),
                "`#[msg]` 的处理函数最多两个参数：`ctx: Ctx` 与负载"@,
            ),
        )
    } else if replies(method.output) && arg == Some(Arg::Whole) {
        Err(
            fault(
                Spot::Method(i),
                "收整条 `Message` 的处理函数不能有返回值：消息已经交给它了，自动回包无从下手，请自己调 `ctx.reply`"@,
            ),
        )
    } else if debug is Some && arg == Some(Arg::Whole) {
        Err(
            fault(
                Spot::Method(i),
                "收整条 `Message` 的处理函数无法 `#[debug]`：请声明可反序列化的负载类型"@,
            ),
        )
    } else if debug is Some && route is Fallback {
        Err(
            fault(
                Spot::Method(i),
                "`#[msg(default)]` 无法 `#[debug]`：调试消息必须有明确协议号"@,
            ),
        )
    } else if debug is Some && first_forbidden(listed(method.route)) is Some {
        Err(
            fault(
                Spot::RouteArgument(i, first_forbidden(listed(method.route))->Some_0 as usize),
                "调试控制台不能开放 MsgType::RESPONSE 或 MsgType::ERROR"@,
            ),
        )
    } else {
        Ok(
            HandlerView {
                route,
                takes_ctx: typed_count(method.inputs@) > 0,
                arg,
                replies: replies(method.output),
                debug_name: match debug {
                    Some(set) => match set.name {
                        Some(name) => Some(name),
                        None => Some(method.name@),
                    },
                    None => None,
                },
                debug_example: match debug {
                    Some(set) => set.example,
                    None => None,
                },
            },
        )
    }
}

/// What is set for a message, if anything is.
pub open spec fn debug_view(debug: Option<DebugAttr>) -> Option<DebugView> {
    match debug {
        Some(set) => Some(set@),
        None => None,
    }
}

/// Settles how messages are handed to a method.
pub fn read_handler(i: usize, method: &Method, route: Route, debug: Option<DebugAttr>) -> (result:
    Result<HandlerPlan, Fault>)
    ensures
        match handler_of(i, *method, route, debug_view(debug)) {
            Ok(view) => result matches Ok(plan) && plan@ == view,
            Err(view) => result matches Err(found) && found@ == view,
        },
{
    if !method.is_async {
        return Err(Fault::new(Spot::Method(i), "`#[msg]` 的处理函数要写成 `async fn`"));
    }
    match check_self(i, &method.inputs) {
        Err(found) => {
            return Err(found);
        },
        Ok(()) => {},
    }
    let count: usize = count_typed(&method.inputs);
    if count > 2 {
        return Err(
            Fault::new(
                Spot::Method(i),
                "`#[msg]` 的处理函数最多两个参数：`ctx: Ctx` 与负载",
            ),
        );
    }
    let arg = match find_typed(&method.inputs, 1) {
        Some(place) => match &method.inputs[place] {
            Input::Typed(shape) => if shape.is_message() {
                Some(Arg::Whole)
            } else {
                Some(Arg::Typed)
            },
            _ => Some(Arg::Typed),
        },
        None => None,
    };
    let whole = match arg {
        Some(Arg::Whole) => true,
        _ => false,
    };
    let sends_back = gives_back(&method.output);
    if sends_back && whole {
        return Err(
            Fault::new(
                Spot::Method(i),
                "收整条 `Message` 的处理函数不能有返回值：消息已经交给它了，自动回包无从下手，请自己调 `ctx.reply`",
            ),
        );
    }
    let takes_ctx = count > 0;
    match debug {
        None => Ok(
            HandlerPlan {
                route,
                takes_ctx,
                arg,
                replies: sends_back,
                debug_name: None,
                debug_example: None,
            },
        ),
        Some(set) => {
            if whole {
                return Err(
                    Fault::new(
                        Spot::Method(i),
                        "收整条 `Message` 的处理函数无法 `#[debug]`：请声明可反序列化的负载类型",
                    ),
                );
            }
            if route == Route::Fallback {
                return Err(
                    Fault::new(
                        Spot::Method(i),
                        "`#[msg(default)]` 无法 `#[debug]`：调试消息必须有明确协议号",
                    ),
                );
            }
            match &method.route {
                Some(exprs) => {
                    match find_forbidden(exprs) {
                        Some(place) => {
                            return Err(
                                Fault::new(
                                    Spot::RouteArgument(i, place),
                                    "调试控制台不能开放 MsgType::RESPONSE 或 MsgType::ERROR",
                                ),
                            );
                        },
                        None => {},
                    }
                },
                None => {},
            }
            let name = match set.name {
                Some(name) => name,
                None => method.name.clone(),
            };
            Ok(
                HandlerPlan {
                    route,
                    takes_ctx,
                    arg,
                    replies: sends_back,
                    debug_name: Some(name),
                    debug_example: set.example,
                },
            )
        },
    }
}

/// What becomes of one thing in the block. A method that handles messages stays in the block as
/// well, so that it can still be called.
#[derive(Debug)]
pub enum Part {
    /// It stays where it is.
    Leftover,
    /// The kernel calls it.
    Hook(Hook),
    /// Messages are handed to it.
    Handler(HandlerPlan),
}

/// What becomes of one thing in the block.
#[verifier::ext_equal]
pub enum PartView {
    Leftover,
    Hook(Hook),
    Handler(HandlerView),
}

impl View for Part {
    type V = PartView;

    open spec fn view(&self) -> PartView {
        match self {
            Part::Leftover => PartView::Leftover,
            Part::Hook(hook) => PartView::Hook(*hook),
            Part::Handler(plan) => PartView::Handler(plan@),
        }
    }
}

/// What becomes of a method, or what is wrong.
pub open spec fn part_of(i: usize, method: Method, flavor: Flavor) -> Result<PartView, FaultView> {
    match debug_of(i, method.debugs@) {
        Err(wrong) => Err(wrong),
        Ok(debug) => match route_of(i, method.route) {
            Err(wrong) => Err(wrong),
            Ok(route) => match hook_of(i, method.name@, flavor) {
                Err(wrong) => Err(wrong),
                Ok(hook) => match (hook, route) {
                    (Some(_), Some(_)) => Err(
                        fault(
                            Spot::Method(i),
                            "钩子方法上不能再标 `#[msg]`：它本来就是内核直接调的"@,
                        ),
                    ),
                    (Some(hook), None) => if debug is Some {
                        Err(
                            fault(
                                Spot::Method(i),
                                "`#[debug]` 只能标在 `#[msg(...)]` 消息处理器上"@,
                            ),
                        )
                    } else {
                        Ok(PartView::Hook(hook))
                    },
                    (None, Some(route)) => match handler_of(i, method, route, debug) {
                        Ok(plan) => Ok(PartView::Handler(plan)),
                        Err(wrong) => Err(wrong),
                    },
                    (None, None) => if debug is Some {
                        Err(
                            fault(
                                Spot::Method(i),
                                "`#[debug]` 只能标在 `#[msg(...)]` 消息处理器上"@,
                            ),
                        )
                    } else {
                        Ok(PartView::Leftover)
                    },
                },
            },
        },
    }
}

/// Settles what becomes of a method.
pub fn read_part(i: usize, method: &Method, flavor: Flavor) -> (result: Result<Part, Fault>)
    ensures
        match part_of(i, *method, flavor) {
            Ok(view) => result matches Ok(part) && part@ == view,
            Err(view) => result matches Err(found) && found@ == view,
        },
{
    let debug = match read_debug(i, &method.debugs) {
        Err(found) => {
            return Err(found);
        },
        Ok(debug) => debug,
    };
    let route = match read_route(i, &method.route) {
        Err(found) => {
            return Err(found);
        },
        Ok(route) => route,
    };
    let hook = match read_hook(i, method.name.as_str(), flavor) {
        Err(found) => {
            return Err(found);
        },
        Ok(hook) => hook,
    };
    match hook {
        Some(hook) => {
            if route.is_some() {
                return Err(
                    Fault::new(
                        Spot::Method(i),
                        "钩子方法上不能再标 `#[msg]`：它本来就是内核直接调的",
                    ),
                );
            }
            if debug.is_some() {
                return Err(
                    Fault::new(
                        Spot::Method(i),
                        "`#[debug]` 只能标在 `#[msg(...)]` 消息处理器上",
                    ),
                );
            }
            Ok(Part::Hook(hook))
        },
        None => match route {
            Some(route) => match read_handler(i, method, route, debug) {
                Ok(plan) => Ok(Part::Handler(plan)),
                Err(found) => Err(found),
            },
            None => {
                if debug.is_some() {
                    return Err(
                        Fault::new(
                            Spot::Method(i),
                            "`#[debug]` 只能标在 `#[msg(...)]` 消息处理器上",
                        ),
                    );
                }
                Ok(Part::Leftover)
            },
        },
    }
}

} // verus!
