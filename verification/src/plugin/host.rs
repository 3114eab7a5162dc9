//! The plugins of one service: bringing them up, what they offer one another, and where a message
//! goes.

use crate::error::Error;
#[allow(unused_imports)]
use crate::places::{first_place, lemma_first_place, lemma_first_place_is};
#[allow(unused_imports)]
use crate::plugin::order::{law_an_order_puts_dependencies_first, numbers, ordered};
#[allow(unused_imports)]
use crate::plugin::registry::{distinct, identifier_fault, DescriptorView};
use crate::plugin::registry::{validate_identifier, CommandId, PluginRegistry};
#[allow(unused_imports)]
use crate::plugin::resolve::{
    claim_place, claims, claims_view, deps_of, lemma_all_known, lemma_deps_are_listed, list_fault,
    plugin, resolved,
};
use crate::plugin::resolve::{find_claim, Claim};
#[allow(unused_imports)]
use crate::text::{decimal, texts};
use crate::text::{find_text, push_decimal, same_text};
use vstd::prelude::*;

verus! {

/// A value of a configuration.
#[verifier::external_type_specification]
#[verifier::external_body]
pub struct ExTomlValue(toml::Value);

/// The keys of a value that is a table.
pub uninterp spec fn table_keys(value: toml::Value) -> Option<Set<Seq<char>>>;

/// Makes `toml::Value::Table` of a new `toml::Table`: a table without keys.
#[verifier::external_body]
fn empty_table() -> (value: toml::Value)
    ensures
        table_keys(value) == Some(Set::<Seq<char>>::empty()),
{
    toml::Value::Table(toml::Table::new())
}

/// One plugin that a configuration asks for.
#[derive(Debug)]
pub struct PluginSpec {
    pub name: String,
    pub config: toml::Value,
}

impl Default for PluginSpec {
    /// A plugin without a name.
    fn default() -> (spec: PluginSpec)
        ensures
            spec.name@ == ""@,
            table_keys(spec.config) == Some(Set::<Seq<char>>::empty()),
    {
        PluginSpec { name: "".to_owned(), config: empty_table() }
    }
}

impl PluginSpec {
    /// A plugin with nothing set for it.
    pub fn new(name: &str) -> (spec: PluginSpec)
        ensures
            spec.name@ == name@,
            table_keys(spec.config) == Some(Set::<Seq<char>>::empty()),
    {
        PluginSpec { name: name.to_owned(), config: empty_table() }
    }

    /// The same plugin with this set for it.
    #[must_use]
    pub fn with_config(self, config: toml::Value) -> (spec: PluginSpec)
        ensures
            spec.name == self.name,
            spec.config == config,
    {
        PluginSpec { name: self.name, config }
    }
}

/// The plugins that a service asks for.
#[derive(Debug)]
pub struct PluginHostConfig {
    pub plugins: Vec<PluginSpec>,
}

impl Default for PluginHostConfig {
    fn default() -> (config: PluginHostConfig)
        ensures
            config.plugins@.len() == 0,
    {
        PluginHostConfig { plugins: Vec::new() }
    }
}

impl View for PluginHostConfig {
    type V = Seq<Seq<char>>;

    /// The names of the plugins.
    open spec fn view(&self) -> Seq<Seq<char>> {
        self.plugins@.map_values(|s: PluginSpec| s.name@)
    }
}

impl PluginHostConfig {
    /// The names of the plugins.
    pub fn names(&self) -> (names: Vec<String>)
        ensures
            texts(names@) == self@,
    {
        let mut names: Vec<String> = Vec::new();
        let mut i: usize = 0;
        while i < self.plugins.len()
            invariant
                i <= self.plugins@.len(),
                names@.len() == i,
                forall|k: int| 0 <= k < i ==> (#[trigger] names@[k])@ == self.plugins@[k].name@,
            decreases self.plugins@.len() - i,
        {
            names.push(self.plugins[i].name.clone());
            i += 1;
        }
        assert(texts(names@) =~= self@);
        names
    }
}

/// Something that a plugin offers. Types are told apart by number.
#[derive(Debug, Clone)]
pub struct Capability {
    pub kind: u64,
    pub kind_name: String,
    pub provider: String,
}

/// What something that a plugin offers says.
#[verifier::ext_equal]
pub struct CapabilityView {
    pub kind: u64,
    pub kind_name: Seq<char>,
    pub provider: Seq<char>,
}

impl View for Capability {
    type V = CapabilityView;

    open spec fn view(&self) -> CapabilityView {
        CapabilityView {
            kind: self.kind,
            kind_name: self.kind_name@,
            provider: self.provider@,
        }
    }
}

/// A kind of event that a plugin wants to hear of.
#[derive(Debug, Clone)]
pub struct Subscription {
    pub plugin: String,
    pub event: u64,
}

/// What the plugins of a service offer and want to hear of.
#[derive(Debug, Clone)]
pub struct BuildState {
    pub capabilities: Vec<Capability>,
    pub subscriptions: Vec<Subscription>,
}

/// What the plugins of a service offer and want to hear of.
#[verifier::ext_equal]
pub struct BuildView {
    pub capabilities: Seq<CapabilityView>,
    pub subscriptions: Seq<(Seq<char>, u64)>,
}

impl View for BuildState {
    type V = BuildView;

    open spec fn view(&self) -> BuildView {
        BuildView {
            capabilities: self.capabilities@.map_values(|c: Capability| c@),
            subscriptions: self.subscriptions@.map_values(|s: Subscription| (s.plugin@, s.event)),
        }
    }
}

/// Which of the things that plugins offer are of this type.
pub open spec fn of_kind(kind: u64) -> spec_fn(CapabilityView) -> bool {
    |c: CapabilityView| c.kind == kind
}

/// The place of what is offered under a type, or the length where nothing is.
pub open spec fn offer_place(capabilities: Seq<CapabilityView>, kind: u64) -> int {
    first_place(capabilities, of_kind(kind))
}

/// Looks for what is offered under a type.
fn find_offer(capabilities: &Vec<Capability>, kind: u64) -> (place: usize)
    ensures
        place == offer_place(capabilities@.map_values(|c: Capability| c@), kind),
        place <= capabilities@.len(),
{
    let ghost all = capabilities@.map_values(|c: Capability| c@);
    let ghost holds = of_kind(kind);
    let mut i: usize = 0;
    while i < capabilities.len() && capabilities[i].kind != kind
        invariant
            i <= capabilities@.len(),
            all == capabilities@.map_values(|c: Capability| c@),
            holds == of_kind(kind),
            forall|k: int| 0 <= k < i ==> !holds(#[trigger] all[k]),
        decreases capabilities@.len() - i,
    {
        assert(all[i as int].kind == capabilities@[i as int].kind);
        i += 1;
    }
    proof {
        if i < capabilities@.len() {
            assert(holds(all[i as int]));
        }
        lemma_first_place_is(all, holds, i as int);
    }
    i
}

impl BuildView {
    /// What it says to offer something under a type that is already offered.
    pub open spec fn offer_fault(
        self,
        plugin: Seq<char>,
        kind: u64,
        kind_name: Seq<char>,
    ) -> Option<Seq<char>> {
        let place = offer_place(self.capabilities, kind);
        if place < self.capabilities.len() {
            Some(
                "Capability `"@ + kind_name + "` 被插件 `"@ + self.capabilities[place].provider
                    + "` 与 `"@ + plugin + "` 重复提供"@,
            )
        } else {
            None
        }
    }

    /// What is offered and heard of when this is offered too.
    pub open spec fn with_offer(
        self,
        plugin: Seq<char>,
        kind: u64,
        kind_name: Seq<char>,
    ) -> BuildView {
        BuildView {
            capabilities: self.capabilities.push(
                CapabilityView { kind, kind_name, provider: plugin },
            ),
            subscriptions: self.subscriptions,
        }
    }

    /// What is offered and heard of when this is heard of too.
    pub open spec fn with_hearer(self, plugin: Seq<char>, event: u64) -> BuildView {
        BuildView {
            capabilities: self.capabilities,
            subscriptions: self.subscriptions.push((plugin, event)),
        }
    }

    /// What it says to subscribe to an event twice.
    pub open spec fn subscribe_fault(
        self,
        plugin: Seq<char>,
        event: u64,
        event_name: Seq<char>,
    ) -> Option<Seq<char>> {
        if self.subscriptions.contains((plugin, event)) {
            Some("插件 `"@ + plugin + "` 重复订阅事件 `"@ + event_name + "`"@)
        } else {
            None
        }
    }
}

impl Default for BuildState {
    /// Nothing is offered, and nobody wants to hear of anything.
    fn default() -> (state: BuildState)
        ensures
            state@ == (BuildView { capabilities: Seq::empty(), subscriptions: Seq::empty() }),
    {
        let state = BuildState { capabilities: Vec::new(), subscriptions: Vec::new() };
        assert(state@ =~= BuildView {
            capabilities: Seq::empty(),
            subscriptions: Seq::empty(),
        });
        state
    }
}

/// Where one plugin says what it offers and wants to hear of.
#[derive(Debug)]
pub struct PluginMount {
    pub plugin: String,
    pub state: BuildState,
}

impl PluginMount {
    /// Offers something to the plugins that depend on this one. A type is offered once only.
    pub fn provide(&mut self, kind: u64, kind_name: &str) -> (result: Result<(), Error>)
        ensures
            final(self).plugin == old(self).plugin,
            match old(self).state@.offer_fault(old(self).plugin@, kind, kind_name@) {
                Some(text) => {
                    &&& result matches Err(error) && error is Config && error.text() == text
                    &&& final(self).state@ == old(self).state@
                },
                None => {
                    &&& result is Ok
                    &&& final(self).state@ == (BuildView {
                        capabilities: old(self).state@.capabilities.push(
                            CapabilityView {
                                kind,
                                kind_name: kind_name@,
                                provider: old(self).plugin@,
                            },
                        ),
                        subscriptions: old(self).state@.subscriptions,
                    })
                },
            },
            result is Ok ==> final(self).state@ == old(self).state@.with_offer(
                old(self).plugin@,
                kind,
                kind_name@,
            ),
    {
        let place: usize = find_offer(&self.state.capabilities, kind);
        if place < self.state.capabilities.len() {
            let mut text = "Capability `".to_owned();
            text.append(kind_name);
            text.append("` 被插件 `");
            text.append(self.state.capabilities[place].provider.as_str());
            text.append("` 与 `");
            text.append(self.plugin.as_str());
            text.append("` 重复提供");
            return Err(Error::Config(text));
        }
        let provider = self.plugin.clone();
        self.state.capabilities.push(
            Capability { kind, kind_name: kind_name.to_owned(), provider },
        );
        assert(self.state@ =~= BuildView {
            capabilities: old(self).state@.capabilities.push(
                CapabilityView { kind, kind_name: kind_name@, provider: old(self).plugin@ },
            ),
            subscriptions: old(self).state@.subscriptions,
        });
        Ok(())
    }

    /// Asks to hear of a kind of event. One plugin asks once only.
    pub fn subscribe(&mut self, event: u64, event_name: &str) -> (result: Result<(), Error>)
        ensures
            final(self).plugin == old(self).plugin,
            match old(self).state@.subscribe_fault(old(self).plugin@, event, event_name@) {
                Some(text) => {
                    &&& result matches Err(error) && error is Config && error.text() == text
                    &&& final(self).state@ == old(self).state@
                },
                None => {
                    &&& result is Ok
                    &&& final(self).state@ == (BuildView {
                        capabilities: old(self).state@.capabilities,
                        subscriptions: old(self).state@.subscriptions.push(
                            (old(self).plugin@, event),
                        ),
                    })
                },
            },
            result is Ok ==> final(self).state@ == old(self).state@.with_hearer(
                old(self).plugin@,
                event,
            ),
    {
        let ghost held = self.state@.subscriptions;
        let mut i: usize = 0;
        while i < self.state.subscriptions.len()
            invariant
                i <= self.state.subscriptions@.len(),
                *self == *old(self),
                held == self.state@.subscriptions,
                forall|k: int| 0 <= k < i ==> #[trigger] held[k] != (self.plugin@, event),
            decreases self.state.subscriptions@.len() - i,
        {
            assert(held[i as int] == (
                self.state.subscriptions@[i as int].plugin@,
                self.state.subscriptions@[i as int].event,
            ));
            if self.state.subscriptions[i].event == event && same_text(
                self.state.subscriptions[i].plugin.as_str(),
                self.plugin.as_str(),
            ) {
                assert(held.contains((self.plugin@, event)));
                let mut text = "插件 `".to_owned();
                text.append(self.plugin.as_str());
                text.append("` 重复订阅事件 `");
                text.append(event_name);
                text.append("`");
                return Err(Error::Config(text));
            }
            i += 1;
        }
        let plugin = self.plugin.clone();
        self.state.subscriptions.push(Subscription { plugin, event });
        assert(self.state@ =~= BuildView {
            capabilities: old(self).state@.capabilities,
            subscriptions: held.push((old(self).plugin@, event)),
        });
        Ok(())
    }
}

/// A plugin that was brought up, with what it depends on.
#[derive(Debug, Clone)]
pub struct Enabled {
    pub name: String,
    pub dependencies: Vec<String>,
}

/// What a list of plugins that were brought up says.
pub open spec fn enabled_view(enabled: Seq<Enabled>) -> Seq<(Seq<char>, Seq<Seq<char>>)> {
    enabled.map_values(|e: Enabled| (e.name@, texts(e.dependencies@)))
}

/// What each of the plugins that are listed depends on, by name.
pub open spec fn wants(
    plugins: Seq<DescriptorView>,
    namespace: Seq<char>,
    names: Seq<Seq<char>>,
) -> Seq<(Seq<char>, Seq<Seq<char>>)> {
    names.map_values(|n: Seq<char>| (n, plugin(plugins, namespace, n).dependencies))
}

/// What is settled before the plugins of a service are made: the order in which they are brought
/// up, by their places in the configuration, who has which command, and who depends on whom.
#[derive(Debug)]
pub struct Plan {
    pub order: Vec<usize>,
    pub routes: Vec<Claim>,
    pub enabled: Vec<Enabled>,
}

/// The plugins of a service while it runs.
#[derive(Debug, Clone)]
pub struct Runtime {
    pub namespace: String,
    pub routes: Vec<Claim>,
    pub enabled: Vec<Enabled>,
    pub state: BuildState,
}

/// The plugins of a service while it runs.
#[verifier::ext_equal]
pub struct RuntimeView {
    pub namespace: Seq<char>,
    pub routes: Seq<(CommandId, Seq<char>)>,
    pub enabled: Seq<(Seq<char>, Seq<Seq<char>>)>,
    pub state: BuildView,
}

impl View for Runtime {
    type V = RuntimeView;

    open spec fn view(&self) -> RuntimeView {
        RuntimeView {
            namespace: self.namespace@,
            routes: claims_view(self.routes@),
            enabled: enabled_view(self.enabled@),
            state: self.state@,
        }
    }
}

/// Whether a plugin says that it depends on another.
pub open spec fn depends_on(
    enabled: Seq<(Seq<char>, Seq<Seq<char>>)>,
    plugin: Seq<char>,
    other: Seq<char>,
) -> bool {
    exists|i: int|
        0 <= i < enabled.len() && (#[trigger] enabled[i]).0 == plugin && enabled[i].1.contains(
            other,
        )
}

impl RuntimeView {
    /// What a plugin gets that asks for something of a type: the place of what is offered, or
    /// what is wrong. A plugin gets what it offers itself and what those offer that it depends
    /// on.
    pub open spec fn required(
        self,
        plugin: Seq<char>,
        kind: u64,
        kind_name: Seq<char>,
    ) -> Result<int, Seq<char>> {
        let place = offer_place(self.state.capabilities, kind);
        if place >= self.state.capabilities.len() {
            Err("插件 `"@ + plugin + "` 请求了未提供的 Capability `"@ + kind_name + "`"@)
        } else {
            let found = self.state.capabilities[place];
            if found.provider == plugin || depends_on(self.enabled, plugin, found.provider) {
                Ok(place)
            } else {
                Err(
                    "插件 `"@ + plugin + "` 未声明依赖 `"@ + found.provider
                        + "`，不能取得 Capability `"@ + found.kind_name + "`"@,
                )
            }
        }
    }
}

impl Runtime {
    /// Whether a plugin says that it depends on another.
    fn depends(&self, plugin: &str, other: &str) -> (depends: bool)
        ensures
            depends == depends_on(self@.enabled, plugin@, other@),
    {
        let ghost all = self@.enabled;
        let mut i: usize = 0;
        while i < self.enabled.len()
            invariant
                i <= self.enabled@.len(),
                all == enabled_view(self.enabled@),
                all == self@.enabled,
                forall|k: int|
                    0 <= k < i ==> !((#[trigger] all[k]).0 == plugin@ && all[k].1.contains(other@)),
            decreases self.enabled@.len() - i,
        {
            assert(all[i as int] == (
                self.enabled@[i as int].name@,
                texts(self.enabled@[i as int].dependencies@),
            ));
            if same_text(self.enabled[i].name.as_str(), plugin) {
                let wanted = &self.enabled[i].dependencies;
                let place: usize = find_text(wanted, other);
                proof {
                    let held = texts(wanted@);
                    let holds = |t: Seq<char>| t == other@;
                    lemma_first_place(held, holds);
                    assert(place == first_place(held, holds));
                    if place < held.len() {
                        assert(holds(held[place as int]));
                        assert(held.contains(other@));
                    } else if held.contains(other@) {
                        let k = choose|k: int| 0 <= k < held.len() && held[k] == other@;
                        assert(!holds(held[k]));
                    }
                }
                if place < wanted.len() {
                    return true;
                }
            }
            i += 1;
        }
        false
    }
}

/// What one plugin sees of the service it belongs to.
#[derive(Debug)]
pub struct PluginCtx<'a> {
    pub plugin: &'a str,
    pub runtime: &'a Runtime,
}

impl<'a> PluginCtx<'a> {
    /// The namespace of the service.
    pub fn namespace(&self) -> (namespace: &str)
        ensures
            namespace@ == self.runtime@.namespace,
    {
        self.runtime.namespace.as_str()
    }

    /// The plugin itself.
    pub fn plugin(&self) -> (plugin: &str)
        ensures
            plugin@ == self.plugin@,
    {
        self.plugin
    }

    /// Gets the place of what is offered under a type.
    pub fn require(&self, kind: u64, kind_name: &str) -> (result: Result<usize, Error>)
        ensures
            match self.runtime@.required(self.plugin@, kind, kind_name@) {
                Ok(place) => result matches Ok(found) && found == place,
                Err(text) => result matches Err(error) && error is Service && error.text() == text,
            },
    {
        let place: usize = find_offer(&self.runtime.state.capabilities, kind);
        if place >= self.runtime.state.capabilities.len() {
            let mut text = "插件 `".to_owned();
            text.append(self.plugin);
            text.append("` 请求了未提供的 Capability `");
            text.append(kind_name);
            text.append("`");
            return Err(Error::Service(text));
        }
        let found = &self.runtime.state.capabilities[place];
        assert(found@ == self.runtime@.state.capabilities[place as int]);
        if !same_text(found.provider.as_str(), self.plugin) && !self.runtime.depends(
            self.plugin,
            found.provider.as_str(),
        ) {
            let mut text = "插件 `".to_owned();
            text.append(self.plugin);
            text.append("` 未声明依赖 `");
            text.append(found.provider.as_str());
            text.append("`，不能取得 Capability `");
            text.append(found.kind_name.as_str());
            text.append("`");
            return Err(Error::Service(text));
        }
        Ok(place)
    }
}

/// A message that a service gets: an event, a command, or something else.
#[derive(Debug, Clone, Copy)]
pub enum Received {
    Event(u64),
    Command(CommandId),
    Other,
}

/// What becomes of a message: it is refused with a word in the log, those subscriptions hear of
/// it, or this plugin handles it.
#[derive(Debug)]
pub enum Dispatch {
    Refuse(String),
    Publish(Vec<usize>),
    Handle(String),
}

/// What becomes of a message.
#[verifier::ext_equal]
pub enum DispatchView {
    Refuse(Seq<char>),
    Publish(Seq<int>),
    Handle(Seq<char>),
}

impl View for Dispatch {
    type V = DispatchView;

    open spec fn view(&self) -> DispatchView {
        match self {
            Dispatch::Refuse(text) => DispatchView::Refuse(text@),
            Dispatch::Publish(places) => DispatchView::Publish(numbers(places@)),
            Dispatch::Handle(plugin) => DispatchView::Handle(plugin@),
        }
    }
}

/// The places of the subscriptions to a kind of event, in the order in which they were made.
pub open spec fn hearers(subscriptions: Seq<(Seq<char>, u64)>, event: u64) -> Seq<int>
    decreases subscriptions.len(),
{
    if subscriptions.len() == 0 {
        Seq::empty()
    } else if subscriptions.last().1 == event {
        hearers(subscriptions.drop_last(), event).push(subscriptions.len() - 1)
    } else {
        hearers(subscriptions.drop_last(), event)
    }
}

/// What becomes of a message to the service of a namespace.
pub open spec fn dispatched(
    namespace: Seq<char>,
    runtime: Option<RuntimeView>,
    received: Received,
) -> DispatchView {
    match runtime {
        None => DispatchView::Refuse("plugin namespace `"@ + namespace + "` 尚未初始化"@),
        Some(runtime) => match received {
            Received::Event(event) => DispatchView::Publish(
                hearers(runtime.state.subscriptions, event),
            ),
            Received::Other => DispatchView::Refuse(
                "plugin namespace `"@ + namespace + "` 收到未封装为 CommandEnvelope 的消息"@,
            ),
            Received::Command(command) => {
                let place = claim_place(runtime.routes, command);
                if place < runtime.routes.len() {
                    DispatchView::Handle(runtime.routes[place].1)
                } else {
                    DispatchView::Refuse(
                        "plugin namespace `"@ + namespace + "` 收到未知命令 "@ + decimal(
                            command.0 as nat,
                        ),
                    )
                }
            },
        },
    }
}

/// The places of the subscriptions to a kind of event.
fn find_hearers(subscriptions: &Vec<Subscription>, event: u64) -> (places: Vec<usize>)
    ensures
        numbers(places@) == hearers(
            subscriptions@.map_values(|s: Subscription| (s.plugin@, s.event)),
            event,
        ),
{
    let ghost all = subscriptions@.map_values(|s: Subscription| (s.plugin@, s.event));
    let mut places: Vec<usize> = Vec::new();
    let mut i: usize = 0;
    assert(all.take(0) =~= Seq::empty());
    assert(numbers(places@) =~= Seq::empty());
    while i < subscriptions.len()
        invariant
            i <= subscriptions@.len(),
            all == subscriptions@.map_values(|s: Subscription| (s.plugin@, s.event)),
            numbers(places@) == hearers(all.take(i as int), event),
        decreases subscriptions@.len() - i,
    {
        let ghost before = places@;
        assert(all.take(i + 1).drop_last() =~= all.take(i as int));
        assert(all.take(i + 1).last() == (
            subscriptions@[i as int].plugin@,
            subscriptions@[i as int].event,
        ));
        if subscriptions[i].event == event {
            places.push(i);
            assert(numbers(places@) =~= numbers(before).push(i as int));
        }
        i += 1;
    }
    assert(all.take(i as int) =~= all);
    places
}

/// The plugins of one service. Each service has its own.
#[derive(Debug)]
pub struct PluginHost {
    pub namespace: String,
    pub registry: PluginRegistry,
    pub runtime: Option<Runtime>,
}

/// The plugins of a service that are running, if they are.
pub open spec fn runtime_view(runtime: Option<Runtime>) -> Option<RuntimeView> {
    match runtime {
        Some(runtime) => Some(runtime@),
        None => None,
    }
}

impl PluginHost {
    /// The plugins that can be made have different names.
    pub open spec fn wf(&self) -> bool {
        distinct(self.registry@)
    }

    /// The plugins of a service, none of which runs yet.
    pub fn new(namespace: &str, registry: PluginRegistry) -> (result: Result<PluginHost, Error>)
        requires
            distinct(registry@),
        ensures
            match identifier_fault("namespace"@, namespace@) {
                Some(text) => result matches Err(error) && error is Config && error.text() == text,
                None => {
                    &&& result matches Ok(host) && host.wf() && host.namespace@ == namespace@
                        && host.registry == registry && host.runtime is None
                },
            },
    {
        match validate_identifier("namespace", namespace) {
            Err(error) => Err(error),
            Ok(()) => Ok(PluginHost { namespace: namespace.to_owned(), registry, runtime: None }),
        }
    }

    /// The namespace whose plugins these are.
    pub fn namespace(&self) -> (namespace: &str)
        ensures
            namespace@ == self.namespace@,
    {
        self.namespace.as_str()
    }

    /// Whether the plugins run.
    pub fn is_initialized(&self) -> (initialized: bool)
        ensures
            initialized == (self.runtime is Some),
    {
        self.runtime.is_some()
    }

    /// The places of the plugins that a configuration asks for, in the order in which they are
    /// brought up.
    pub fn resolve(&self, config: &PluginHostConfig) -> (result: Result<Vec<usize>, Error>)
        requires
            self.wf(),
        ensures
            match resolved(self.registry@, self.namespace@, config@) {
                Ok(order) => result matches Ok(places) && numbers(places@) == order,
                Err(text) => result matches Err(error) && error is Config && error.text() == text,
            },
    {
        let names = config.names();
        self.registry.resolve(self.namespace.as_str(), &names)
    }

    /// Settles how the plugins of a service are brought up. That happens once.
    pub fn plan(&self, config: &PluginHostConfig) -> (result: Result<Plan, Error>)
        requires
            self.wf(),
        ensures
            self.runtime is Some ==> {
                &&& result matches Err(error) && error is Service && error.text()
                    == "namespace `"@ + self.namespace@ + "` 已经初始化，不能重复装配插件"@
            },
            self.runtime is None ==> match resolved(self.registry@, self.namespace@, config@) {
                Ok(order) => {
                    &&& result matches Ok(plan) && numbers(plan.order@) == order && claims_view(
                        plan.routes@,
                    ) == claims(self.registry@, self.namespace@, config@) && enabled_view(
                        plan.enabled@,
                    ) == wants(self.registry@, self.namespace@, config@)
                },
                Err(text) => result matches Err(error) && error is Config && error.text() == text,
            },
    {
        if self.is_initialized() {
            let mut text = "namespace `".to_owned();
            text.append(self.namespace.as_str());
            text.append("` 已经初始化，不能重复装配插件");
            return Err(Error::Service(text));
        }
        let names = config.names();
        let order = match self.registry.resolve(self.namespace.as_str(), &names) {
            Err(error) => {
                return Err(error);
            },
            Ok(order) => order,
        };
        let routes = match self.registry.check_commands(self.namespace.as_str(), &names) {
            Err(error) => {
                return Err(error);
            },
            Ok(routes) => routes,
        };
        let enabled = self.wanted(&names);
        Ok(Plan { order, routes, enabled })
    }

    /// What each of the plugins that are listed depends on.
    fn wanted(&self, names: &Vec<String>) -> (enabled: Vec<Enabled>)
        requires
            list_fault(self.registry@, self.namespace@, texts(names@)) is None,
        ensures
            enabled_view(enabled@) == wants(self.registry@, self.namespace@, texts(names@)),
    {
        let ghost all = texts(names@);
        let ghost expected = wants(self.registry@, self.namespace@, all);
        let mut enabled: Vec<Enabled> = Vec::new();
        let mut i: usize = 0;
        while i < names.len()
            invariant
                i <= names@.len(),
                all == texts(names@),
                expected == wants(self.registry@, self.namespace@, all),
                list_fault(self.registry@, self.namespace@, all) is None,
                enabled@.len() == i,
                forall|k: int|
                    0 <= k < i ==> (
                    #[trigger] enabled@[k].name@,
                    texts(enabled@[k].dependencies@),
                    ) == expected[k],
            decreases names@.len() - i,
        {
            proof {
                lemma_all_known(self.registry@, self.namespace@, all, i as int);
            }
            match self.registry.get(self.namespace.as_str(), names[i].as_str()) {
                Some(descriptor) => {
                    let mut dependencies: Vec<String> = Vec::new();
                    let mut k: usize = 0;
                    while k < descriptor.dependencies.len()
                        invariant
                            k <= descriptor.dependencies@.len(),
                            dependencies@.len() == k,
                            forall|j: int|
                                0 <= j < k ==> (#[trigger] dependencies@[j])@
                                    == descriptor.dependencies@[j]@,
                        decreases descriptor.dependencies@.len() - k,
                    {
                        dependencies.push(descriptor.dependencies[k].clone());
                        k += 1;
                    }
                    assert(texts(dependencies@) =~= descriptor@.dependencies);
                    assert(expected[i as int] == (all[i as int], descriptor@.dependencies));
                    enabled.push(Enabled { name: names[i].clone(), dependencies });
                },
                None => {},
            }
            i += 1;
        }
        assert(enabled_view(enabled@) =~= expected);
        enabled
    }

    /// What the plugins see of the service while they are brought up.
    pub fn assemble(&self, plan: Plan, state: BuildState) -> (runtime: Runtime)
        ensures
            runtime@ == (RuntimeView {
                namespace: self.namespace@,
                routes: claims_view(plan.routes@),
                enabled: enabled_view(plan.enabled@),
                state: state@,
            }),
    {
        Runtime {
            namespace: self.namespace.clone(),
            routes: plan.routes,
            enabled: plan.enabled,
            state,
        }
    }

    /// The plugins are up, and messages go to them from now on.
    pub fn install(&mut self, runtime: Runtime)
        ensures
            final(self).namespace == old(self).namespace,
            final(self).registry == old(self).registry,
            final(self).runtime == Some(runtime),
    {
        self.runtime = Some(runtime);
    }

    /// Settles what becomes of a message.
    pub fn dispatch(&self, received: Received) -> (next: Dispatch)
        ensures
            next@ == dispatched(self.namespace@, runtime_view(self.runtime), received),
    {
        match &self.runtime {
            None => {
                let mut text = "plugin namespace `".to_owned();
                text.append(self.namespace.as_str());
                text.append("` 尚未初始化");
                Dispatch::Refuse(text)
            },
            Some(runtime) => match received {
                Received::Event(event) => Dispatch::Publish(
                    find_hearers(&runtime.state.subscriptions, event),
                ),
                Received::Other => {
                    let mut text = "plugin namespace `".to_owned();
                    text.append(self.namespace.as_str());
                    text.append("` 收到未封装为 CommandEnvelope 的消息");
                    Dispatch::Refuse(text)
                },
                Received::Command(command) => {
                    let place: usize = find_claim(&runtime.routes, command);
                    if place < runtime.routes.len() {
                        assert(runtime@.routes[place as int].1
                            == runtime.routes@[place as int].plugin@);
                        Dispatch::Handle(runtime.routes[place].plugin.clone())
                    } else {
                        let mut text = "plugin namespace `".to_owned();
                        text.append(self.namespace.as_str());
                        text.append("` 收到未知命令 ");
                        push_decimal(&mut text, command.0 as u64);
                        Dispatch::Refuse(text)
                    }
                },
            },
        }
    }
}

/// What the log says where a plugin could not handle a command.
pub fn command_failed(plugin: &str, reason: &str) -> (text: String)
    ensures
        text@ == "插件 `"@ + plugin@ + "` 处理命令失败："@ + reason@,
{
    let mut text = "插件 `".to_owned();
    text.append(plugin);
    text.append("` 处理命令失败：");
    text.append(reason);
    text
}

/// What the log says where a plugin could not handle an event.
pub fn event_failed(plugin: &str, event_name: &str, reason: &str) -> (text: String)
    ensures
        text@ == "插件 `"@ + plugin@ + "` 处理事件 `"@ + event_name@ + "` 失败："@ + reason@,
{
    let mut text = "插件 `".to_owned();
    text.append(plugin);
    text.append("` 处理事件 `");
    text.append(event_name);
    text.append("` 失败：");
    text.append(reason);
    text
}

/// What a plugin says of a command that it has no handler for.
pub fn command_unhandled(command: CommandId) -> (error: Error)
    ensures
        error is Service,
        error.text() == "插件没有实现命令 "@ + decimal(command.0 as nat) + " 的处理函数"@,
{
    let mut text = "插件没有实现命令 ".to_owned();
    push_decimal(&mut text, command.0 as u64);
    text.append(" 的处理函数");
    Error::Service(text)
}

/// A plugin is brought up after every plugin that it depends on, and every plugin that is asked
/// for is brought up once.
pub proof fn law_plugins_come_up_after_what_they_need(
    plugins: Seq<DescriptorView>,
    namespace: Seq<char>,
    names: Seq<Seq<char>>,
)
    requires
        resolved(plugins, namespace, names) is Ok,
    ensures
        resolved(plugins, namespace, names)->Ok_0.len() == names.len(),
        forall|i: int|
            0 <= i < names.len() ==> resolved(plugins, namespace, names)->Ok_0.contains(i),
        ordered(
            deps_of(plugins, namespace, names),
            resolved(plugins, namespace, names)->Ok_0,
        ),
{
    lemma_deps_are_listed(plugins, namespace, names);
    law_an_order_puts_dependencies_first(deps_of(plugins, namespace, names));
}

/// What one plugin offers another gets only if it says that it depends on the first, or is the
/// first.
pub proof fn law_a_plugin_gets_only_what_it_may(
    runtime: RuntimeView,
    plugin: Seq<char>,
    kind: u64,
    kind_name: Seq<char>,
)
    ensures
        runtime.required(plugin, kind, kind_name) matches Ok(place) ==> {
            &&& 0 <= place < runtime.state.capabilities.len()
            &&& runtime.state.capabilities[place].kind == kind
            &&& runtime.state.capabilities[place].provider == plugin || depends_on(
                runtime.enabled,
                plugin,
                runtime.state.capabilities[place].provider,
            )
        },
{
    lemma_first_place(runtime.state.capabilities, of_kind(kind));
}

/// Of an event just those hear that asked to, each at the place of its subscription, and those
/// who asked first hear first.
pub proof fn law_only_subscribers_hear_of_an_event(
    subscriptions: Seq<(Seq<char>, u64)>,
    event: u64,
)
    ensures
        forall|i: int|
            #![trigger subscriptions[i]]
            0 <= i < subscriptions.len() ==> (hearers(subscriptions, event).contains(i)
                <==> subscriptions[i].1 == event),
        forall|k: int|
            0 <= k < hearers(subscriptions, event).len() ==> 0 <= #[trigger] hearers(
                subscriptions,
                event,
            )[k] < subscriptions.len(),
        forall|j: int, k: int|
            0 <= j < k < hearers(subscriptions, event).len() ==> #[trigger] hearers(
                subscriptions,
                event,
            )[j] < #[trigger] hearers(subscriptions, event)[k],
    decreases subscriptions.len(),
{
    if subscriptions.len() > 0 {
        let front = subscriptions.drop_last();
        law_only_subscribers_hear_of_an_event(front, event);
        let before = hearers(front, event);
        let all = hearers(subscriptions, event);
        assert forall|i: int|
            #![trigger subscriptions[i]]
            0 <= i < subscriptions.len() implies (all.contains(i) <==> subscriptions[i].1
            == event) by {
            if i < front.len() {
                assert(front[i] == subscriptions[i]);
                if all.contains(i) {
                    let k = choose|k: int| 0 <= k < all.len() && all[k] == i;
                    assert(before[k] == i);
                }
                if before.contains(i) {
                    let k = choose|k: int| 0 <= k < before.len() && before[k] == i;
                    assert(all[k] == i);
                }
            } else if subscriptions[i].1 == event {
                assert(all[all.len() - 1] == i);
            } else if all.contains(i) {
                let k = choose|k: int| 0 <= k < all.len() && all[k] == i;
                assert(before[k] == i);
            }
        }
    }
}

} // verus!
