//! The attribute that makes a plugin of a block of methods.

#[allow(unused_imports)]
use crate::macros::service::text_of;
use crate::macros::service::{DebugItem, DebugMeta};
#[allow(unused_imports)]
use crate::macros::shape::{fault, replies, FaultView};
use crate::macros::shape::{gives_back, Fault, Spot, TypeShape};
use crate::text::same_text;
use vstd::prelude::*;

verus! {

/// An argument of the attribute.
#[derive(Debug, Clone, Copy, PartialEq, Eq, Structural)]
pub enum PluginArg {
    Debug,
    Crate,
    Namespace,
    Name,
    Factory,
    Dependencies,
}

/// The arguments of the attribute.
#[derive(Debug, Clone, Copy, PartialEq, Eq, Structural)]
pub struct PluginArgs {
    pub debug_all: bool,
    pub has_namespace: bool,
    pub has_name: bool,
    pub has_factory: bool,
}

impl PluginArgs {
    /// What follows an argument.
    pub open spec fn after(self, place: usize, key: Seq<char>) -> Result<
        (PluginArg, PluginArgs),
        FaultView,
    > {
        if key == "debug"@ {
            if self.debug_all {
                Err(fault(Spot::Argument(place), "`debug` 写了两遍"@))
            } else {
                Ok((PluginArg::Debug, PluginArgs { debug_all: true, ..self }))
            }
        } else if key == "crate"@ {
            Ok((PluginArg::Crate, self))
        } else if key == "namespace"@ {
            Ok((PluginArg::Namespace, PluginArgs { has_namespace: true, ..self }))
        } else if key == "name"@ {
            Ok((PluginArg::Name, PluginArgs { has_name: true, ..self }))
        } else if key == "factory"@ {
            Ok((PluginArg::Factory, PluginArgs { has_factory: true, ..self }))
        } else if key == "dependencies"@ {
            Ok((PluginArg::Dependencies, self))
        } else {
            Err(fault(Spot::Argument(place), "不认识的 service_plugin 参数"@))
        }
    }

    /// What is missing.
    pub open spec fn missing(self) -> Option<FaultView> {
        if !self.has_namespace {
            Some(fault(Spot::Attribute, "缺少 `namespace = \"...\"`"@))
        } else if !self.has_name {
            Some(fault(Spot::Attribute, "缺少 `name = \"...\"`"@))
        } else if !self.has_factory {
            Some(fault(Spot::Attribute, "缺少 `factory = Type::new`"@))
        } else {
            None
        }
    }

    /// No argument yet.
    pub fn new() -> (args: PluginArgs)
        ensures
            args == (PluginArgs {
                debug_all: false,
                has_namespace: false,
                has_name: false,
                has_factory: false,
            }),
    {
        PluginArgs { debug_all: false, has_namespace: false, has_name: false, has_factory: false }
    }

    /// Takes an argument by its name.
    pub fn take(&mut self, place: usize, key: &str) -> (result: Result<PluginArg, Fault>)
        ensures
            match old(self).after(place, key@) {
                Ok((arg, next)) => result == Ok::<PluginArg, Fault>(arg) && *final(self) == next,
                Err(view) => (result matches Err(found) && found@ == view) && *final(self)
                    == *old(self),
            },
    {
        if same_text(key, "debug") {
            if self.debug_all {
                return Err(Fault::new(Spot::Argument(place), "`debug` 写了两遍"));
            }
            self.debug_all = true;
            return Ok(PluginArg::Debug);
        }
        if same_text(key, "crate") {
            return Ok(PluginArg::Crate);
        }
        if same_text(key, "namespace") {
            self.has_namespace = true;
            return Ok(PluginArg::Namespace);
        }
        if same_text(key, "name") {
            self.has_name = true;
            return Ok(PluginArg::Name);
        }
        if same_text(key, "factory") {
            self.has_factory = true;
            return Ok(PluginArg::Factory);
        }
        if same_text(key, "dependencies") {
            return Ok(PluginArg::Dependencies);
        }
        Err(Fault::new(Spot::Argument(place), "不认识的 service_plugin 参数"))
    }

    /// Checks that nothing is missing.
    pub fn finish(&self) -> (result: Result<(), Fault>)
        ensures
            match self.missing() {
                Some(view) => result matches Err(found) && found@ == view,
                None => result is Ok,
            },
    {
        if !self.has_namespace {
            return Err(Fault::new(Spot::Attribute, "缺少 `namespace = \"...\"`"));
        }
        if !self.has_name {
            return Err(Fault::new(Spot::Attribute, "缺少 `name = \"...\"`"));
        }
        if !self.has_factory {
            return Err(Fault::new(Spot::Attribute, "缺少 `factory = Type::new`"));
        }
        Ok(())
    }
}

/// A variant of an enum. `path` is written out, `envelope` is the enum, and `segments` says how
/// many parts the path has.
#[derive(Debug)]
pub struct Variant {
    pub segments: usize,
    pub path: String,
    pub envelope: String,
}

/// Which command a method handles, and which variant of its payload.
#[derive(Debug)]
pub struct PluginRoute {
    pub command: String,
    pub variant: Option<Variant>,
}

/// A method. `routes` says how many attributes route commands to it, and `route` is read from the
/// first.
#[derive(Debug)]
pub struct PluginMethod {
    pub name: String,
    pub is_async: bool,
    pub typed: usize,
    pub output: Option<TypeShape>,
    pub routes: usize,
    pub route: Option<PluginRoute>,
    pub debugs: Vec<DebugMeta>,
}

/// What a list of things calls a command in the dashboard, or the first that is wrong. The last
/// name counts.
pub open spec fn label_list(items: Seq<DebugItem>) -> Result<Option<Seq<char>>, int>
    decreases items.len(),
{
    if items.len() == 0 {
        Ok(None)
    } else {
        match label_list(items.drop_last()) {
            Err(place) => Err(place),
            Ok(label) => match items.last() {
                DebugItem::Name(text) => Ok(Some(text@)),
                _ => Err(items.len() - 1),
            },
        }
    }
}

/// A fault in a part of the list is the fault of the list.
proof fn lemma_label_stays(items: Seq<DebugItem>, count: int)
    requires
        0 <= count <= items.len(),
        label_list(items.take(count)) is Err,
    ensures
        label_list(items) == label_list(items.take(count)),
    decreases items.len() - count,
{
    if count == items.len() {
        assert(items.take(count) =~= items);
    } else {
        assert(items.take(count + 1).drop_last() =~= items.take(count));
        lemma_label_stays(items, count + 1);
    }
}

/// Whether a method is shown in the dashboard, and under what name of its own.
pub open spec fn label_of(i: usize, metas: Seq<DebugMeta>) -> Result<
    Option<Option<Seq<char>>>,
    FaultView,
> {
    if metas.len() > 1 {
        Err(fault(Spot::DebugAttribute(i, 1), "`#[debug]` 写了两遍"@))
    } else if metas.len() == 0 {
        Ok(None)
    } else {
        match metas[0] {
            DebugMeta::Bare => Ok(Some(None)),
            DebugMeta::List(items) => match label_list(items@) {
                Ok(label) => Ok(Some(label)),
                Err(place) => Err(
                    fault(Spot::DebugArgument(i, place as usize), "只支持 `name = \"...\"`"@),
                ),
            },
            DebugMeta::Value => Err(fault(Spot::DebugAttribute(i, 0), "写成 `#[debug]`"@)),
        }
    }
}

/// What a name in a name says.
pub open spec fn label_view(label: Option<Option<String>>) -> Option<Option<Seq<char>>> {
    match label {
        Some(label) => Some(text_of(label)),
        None => None,
    }
}

/// Reads a list of things that are set for a command.
fn read_label_list(items: &Vec<DebugItem>) -> (result: Result<Option<String>, usize>)
    ensures
        match label_list(items@) {
            Ok(label) => result matches Ok(found) && text_of(found) == label,
            Err(place) => result matches Err(found) && found == place,
        },
{
    let mut label: Option<String> = None;
    let mut i: usize = 0;
    assert(items@.take(0) =~= Seq::empty());
    while i < items.len()
        invariant
            i <= items@.len(),
            label_list(items@.take(i as int)) == Ok::<Option<Seq<char>>, int>(text_of(label)),
        decreases items@.len() - i,
    {
        assert(items@.take(i + 1).drop_last() =~= items@.take(i as int));
        assert(items@.take(i + 1).last() == items@[i as int]);
        match &items[i] {
            DebugItem::Name(text) => {
                label = Some(text.clone());
            },
            _ => {
                proof {
                    lemma_label_stays(items@, i + 1);
                }
                return Err(i);
            },
        }
        i += 1;
    }
    assert(items@.take(i as int) =~= items@);
    Ok(label)
}

/// Reads whether a method is shown in the dashboard.
pub fn read_label(i: usize, metas: &Vec<DebugMeta>) -> (result: Result<
    Option<Option<String>>,
    Fault,
>)
    ensures
        match label_of(i, metas@) {
            Ok(label) => result matches Ok(found) && label_view(found) == label,
            Err(view) => result matches Err(found) && found@ == view,
        },
{
    if metas.len() > 1 {
        return Err(Fault::new(Spot::DebugAttribute(i, 1), "`#[debug]` 写了两遍"));
    }
    if metas.len() == 0 {
        return Ok(None);
    }
    match &metas[0] {
        DebugMeta::Bare => Ok(Some(None)),
        DebugMeta::List(items) => match read_label_list(items) {
            Ok(label) => Ok(Some(label)),
            Err(place) => Err(
                Fault::new(Spot::DebugArgument(i, place), "只支持 `name = \"...\"`"),
            ),
        },
        DebugMeta::Value => Err(Fault::new(Spot::DebugAttribute(i, 0), "写成 `#[debug]`")),
    }
}

/// How commands are handed to a method.
#[derive(Debug)]
pub struct Entry {
    /// The place of the method in the block.
    pub place: usize,
    pub command: String,
    /// The variant that is handled, and its enum.
    pub variant: Option<(String, String)>,
    pub takes_ctx: bool,
    pub has_arg: bool,
    pub replies: bool,
    pub debug_name: Option<String>,
}

/// How commands are handed to a method.
#[verifier::ext_equal]
pub struct EntryView {
    pub place: usize,
    pub command: Seq<char>,
    pub variant: Option<(Seq<char>, Seq<char>)>,
    pub takes_ctx: bool,
    pub has_arg: bool,
    pub replies: bool,
    pub debug_name: Option<Seq<char>>,
}

/// What a variant says, if there is one.
pub open spec fn variant_view(variant: Option<(String, String)>) -> Option<(Seq<char>, Seq<char>)> {
    match variant {
        Some((path, envelope)) => Some((path@, envelope@)),
        None => None,
    }
}

impl View for Entry {
    type V = EntryView;

    open spec fn view(&self) -> EntryView {
        EntryView {
            place: self.place,
            command: self.command@,
            variant: variant_view(self.variant),
            takes_ctx: self.takes_ctx,
            has_arg: self.has_arg,
            replies: self.replies,
            debug_name: text_of(self.debug_name),
        }
    }
}

/// How commands are handed to a method, or what is wrong.
pub open spec fn entry_of(
    i: usize,
    method: PluginMethod,
    route: PluginRoute,
    label: Option<Option<Seq<char>>>,
    debug_all: bool,
) -> Result<EntryView, FaultView> {
    if !method.is_async {
        Err(fault(Spot::Method(i), "插件 `#[msg]` 处理器必须是 async fn"@))
    } else if method.typed > 2 {
        Err(fault(Spot::Method(i), "参数最多是 PluginCtx 与负载"@))
    } else if route.variant is Some && route.variant->Some_0.segments < 2 {
        Err(fault(Spot::RouteArgument(i, 1), "variant 要写完整路径"@))
    } else {
        Ok(
            EntryView {
                place: i,
                command: route.command@,
                variant: match route.variant {
                    Some(variant) => Some((variant.path@, variant.envelope@)),
                    None => None,
                },
                takes_ctx: method.typed > 0,
                has_arg: method.typed > 1,
                replies: replies(method.output),
                debug_name: match label {
                    Some(Some(name)) => Some(name),
                    Some(None) => Some(method.name@),
                    None => if debug_all {
                        Some(method.name@)
                    } else {
                        None
                    },
                },
            },
        )
    }
}

/// Settles how commands are handed to a method.
pub fn read_entry(
    i: usize,
    method: &PluginMethod,
    route: &PluginRoute,
    label: Option<Option<String>>,
    debug_all: bool,
) -> (result: Result<Entry, Fault>)
    ensures
        match entry_of(i, *method, *route, label_view(label), debug_all) {
            Ok(view) => result matches Ok(entry) && entry@ == view,
            Err(view) => result matches Err(found) && found@ == view,
        },
{
    if !method.is_async {
        return Err(Fault::new(Spot::Method(i), "插件 `#[msg]` 处理器必须是 async fn"));
    }
    if method.typed > 2 {
        return Err(Fault::new(Spot::Method(i), "参数最多是 PluginCtx 与负载"));
    }
    let variant = match &route.variant {
        Some(variant) => {
            if variant.segments < 2 {
                return Err(Fault::new(Spot::RouteArgument(i, 1), "variant 要写完整路径"));
            }
            Some((variant.path.clone(), variant.envelope.clone()))
        },
        None => None,
    };
    let debug_name = match label {
        Some(Some(name)) => Some(name),
        Some(None) => Some(method.name.clone()),
        None => if debug_all {
            Some(method.name.clone())
        } else {
            None
        },
    };
    Ok(
        Entry {
            place: i,
            command: route.command.clone(),
            variant,
            takes_ctx: method.typed > 0,
            has_arg: method.typed > 1,
            replies: gives_back(&method.output),
            debug_name,
        },
    )
}

/// What the methods of a plugin come to: how commands are handed to them, and whether it has
/// something to say when it is mounted and when it starts.
#[derive(Debug)]
pub struct PluginParts {
    pub entries: Vec<Entry>,
    pub has_mount: bool,
    pub has_init: bool,
}

/// What the methods of a plugin come to.
#[verifier::ext_equal]
pub struct PartsView {
    pub entries: Seq<EntryView>,
    pub has_mount: bool,
    pub has_init: bool,
}

impl View for PluginParts {
    type V = PartsView;

    open spec fn view(&self) -> PartsView {
        PartsView {
            entries: self.entries@.map_values(|e: Entry| e@),
            has_mount: self.has_mount,
            has_init: self.has_init,
        }
    }
}

impl PartsView {
    /// What one more method adds, or what is wrong with it.
    pub open spec fn with(self, i: usize, method: PluginMethod, debug_all: bool) -> Result<
        PartsView,
        FaultView,
    > {
        if method.routes > 1 {
            Err(fault(Spot::RouteAttribute(i), "`#[msg]` 写了两遍"@))
        } else {
            match label_of(i, method.debugs@) {
                Err(wrong) => Err(wrong),
                Ok(label) => match method.route {
                    Some(route) => match entry_of(i, method, route, label, debug_all) {
                        Ok(entry) => Ok(PartsView { entries: self.entries.push(entry), ..self }),
                        Err(wrong) => Err(wrong),
                    },
                    None => if label is Some {
                        Err(
                            fault(
                                Spot::Method(i),
                                "`#[debug]` 只能与 `#[msg(...)]` 一起使用"@,
                            ),
                        )
                    } else {
                        Ok(
                            PartsView {
                                entries: self.entries,
                                has_mount: self.has_mount || method.name@ == "mount"@,
                                has_init: self.has_init || method.name@ == "init"@,
                            },
                        )
                    },
                },
            }
        }
    }
}

/// What the methods of a plugin come to, or the first that is wrong. What is no method is `None`.
pub open spec fn plugin_parts(items: Seq<Option<PluginMethod>>, debug_all: bool) -> Result<
    PartsView,
    FaultView,
>
    decreases items.len(),
{
    if items.len() == 0 {
        Ok(PartsView { entries: Seq::empty(), has_mount: false, has_init: false })
    } else {
        match plugin_parts(items.drop_last(), debug_all) {
            Err(wrong) => Err(wrong),
            Ok(parts) => match items.last() {
                Some(method) => parts.with((items.len() - 1) as usize, method, debug_all),
                None => Ok(parts),
            },
        }
    }
}

/// A fault in a part of the block is the fault of the block.
proof fn lemma_parts_stay(items: Seq<Option<PluginMethod>>, debug_all: bool, count: int)
    requires
        0 <= count <= items.len(),
        plugin_parts(items.take(count), debug_all) is Err,
    ensures
        plugin_parts(items, debug_all) == plugin_parts(items.take(count), debug_all),
    decreases items.len() - count,
{
    if count == items.len() {
        assert(items.take(count) =~= items);
    } else {
        assert(items.take(count + 1).drop_last() =~= items.take(count));
        lemma_parts_stay(items, debug_all, count + 1);
    }
}

impl PluginParts {
    /// Adds a method.
    pub fn insert(&mut self, i: usize, method: &PluginMethod, debug_all: bool) -> (result: Result<
        (),
        Fault,
    >)
        ensures
            match old(self)@.with(i, *method, debug_all) {
                Ok(view) => result is Ok && final(self)@ == view,
                Err(view) => (result matches Err(found) && found@ == view) && final(self)@
                    == old(self)@,
            },
    {
        if method.routes > 1 {
            return Err(Fault::new(Spot::RouteAttribute(i), "`#[msg]` 写了两遍"));
        }
        let label = match read_label(i, &method.debugs) {
            Err(found) => {
                return Err(found);
            },
            Ok(label) => label,
        };
        match &method.route {
            Some(route) => {
                match read_entry(i, method, route, label, debug_all) {
                    Err(found) => Err(found),
                    Ok(entry) => {
                        let ghost view = entry@;
                        self.entries.push(entry);
                        assert(self@.entries =~= old(self)@.entries.push(view));
                        Ok(())
                    },
                }
            },
            None => {
                if label.is_some() {
                    return Err(
                        Fault::new(Spot::Method(i), "`#[debug]` 只能与 `#[msg(...)]` 一起使用"),
                    );
                }
                if same_text(method.name.as_str(), "mount") {
                    self.has_mount = true;
                }
                if same_text(method.name.as_str(), "init") {
                    self.has_init = true;
                }
                Ok(())
            },
        }
    }
}

/// What is made of a block, or what is wrong with it: the methods of a trait are no plugin.
pub open spec fn block_parts(
    has_trait: bool,
    items: Seq<Option<PluginMethod>>,
    debug_all: bool,
) -> Result<PartsView, FaultView> {
    if has_trait {
        Err(fault(Spot::Trait, "service_plugin 要标在 inherent impl 上"@))
    } else {
        plugin_parts(items, debug_all)
    }
}

/// Looks through a block.
pub fn read_block(has_trait: bool, items: &Vec<Option<PluginMethod>>, debug_all: bool) -> (result:
    Result<PluginParts, Fault>)
    ensures
        match block_parts(has_trait, items@, debug_all) {
            Ok(view) => result matches Ok(parts) && parts@ == view,
            Err(view) => result matches Err(found) && found@ == view,
        },
{
    if has_trait {
        return Err(Fault::new(Spot::Trait, "service_plugin 要标在 inherent impl 上"));
    }
    read_plugin(items, debug_all)
}

/// Looks through the methods of a plugin.
fn read_plugin(items: &Vec<Option<PluginMethod>>, debug_all: bool) -> (result: Result<
    PluginParts,
    Fault,
>)
    ensures
        match plugin_parts(items@, debug_all) {
            Ok(view) => result matches Ok(parts) && parts@ == view,
            Err(view) => result matches Err(found) && found@ == view,
        },
{
    let mut parts = PluginParts { entries: Vec::new(), has_mount: false, has_init: false };
    let mut i: usize = 0;
    assert(items@.take(0) =~= Seq::empty());
    assert(parts@.entries =~= Seq::empty());
    while i < items.len()
        invariant
            i <= items@.len(),
            plugin_parts(items@.take(i as int), debug_all) == Ok::<PartsView, FaultView>(parts@),
        decreases items@.len() - i,
    {
        assert(items@.take(i + 1).drop_last() =~= items@.take(i as int));
        assert(items@.take(i + 1).last() == items@[i as int]);
        match &items[i] {
            Some(method) => {
                match parts.insert(i, method, debug_all) {
                    Err(found) => {
                        proof {
                            lemma_parts_stay(items@, debug_all, i + 1);
                        }
                        return Err(found);
                    },
                    Ok(()) => {},
                }
            },
            None => {},
        }
        i += 1;
    }
    assert(items@.take(i as int) =~= items@);
    Ok(parts)
}

} // verus!
