//! The plugins that there are.

use crate::error::Error;
#[allow(unused_imports)]
use crate::places::{first_place, lemma_first_place, lemma_first_place_is};
#[allow(unused_imports)]
use crate::text::{
    ascending, blank, lemma_one_precedes, lemma_precedes_on, precedes, texts,
};
use crate::text::{insert_text, is_before, is_blank, same_text};
use vstd::prelude::*;

verus! {

/// The number of a command, within one namespace.
#[derive(Debug, Clone, Copy, PartialEq, Eq, Structural, Hash, PartialOrd, Ord)]
pub struct CommandId(pub u32);

/// A plugin that can be made. Names and commands are unique within one namespace only.
#[derive(Debug)]
pub struct PluginDescriptor {
    pub namespace: String,
    pub name: String,
    /// The plugins of the same namespace that have to be there.
    pub dependencies: Vec<String>,
    pub commands: Vec<CommandId>,
    /// The number of the function that makes it.
    pub factory: usize,
    /// Where it is written.
    pub source: String,
}

/// What a [`PluginDescriptor`] says.
#[verifier::ext_equal]
pub struct DescriptorView {
    pub namespace: Seq<char>,
    pub name: Seq<char>,
    pub dependencies: Seq<Seq<char>>,
    pub commands: Seq<CommandId>,
    pub factory: usize,
    pub source: Seq<char>,
}

impl View for PluginDescriptor {
    type V = DescriptorView;

    open spec fn view(&self) -> DescriptorView {
        DescriptorView {
            namespace: self.namespace@,
            name: self.name@,
            dependencies: texts(self.dependencies@),
            commands: self.commands@,
            factory: self.factory,
            source: self.source@,
        }
    }
}

impl PluginDescriptor {
    /// A plugin with these properties.
    pub fn new(
        namespace: String,
        name: String,
        dependencies: Vec<String>,
        commands: Vec<CommandId>,
        factory: usize,
        source: String,
    ) -> (descriptor: PluginDescriptor)
        ensures
            descriptor == (PluginDescriptor {
                namespace,
                name,
                dependencies,
                commands,
                factory,
                source,
            }),
    {
        PluginDescriptor { namespace, name, dependencies, commands, factory, source }
    }
}

/// What is wrong with a name that is given under a label.
pub open spec fn identifier_fault(label: Seq<char>, value: Seq<char>) -> Option<Seq<char>> {
    if blank(value) {
        Some(label + " 不能为空"@)
    } else {
        None
    }
}

/// A name holds more than white space.
pub fn validate_identifier(label: &str, value: &str) -> (result: Result<(), Error>)
    ensures
        match identifier_fault(label@, value@) {
            Some(text) => result matches Err(error) && error is Config && error.text() == text,
            None => result is Ok,
        },
{
    if is_blank(value) {
        let mut text = label.to_owned();
        text.append(" 不能为空");
        return Err(Error::Config(text));
    }
    Ok(())
}

/// The plugins that there are.
#[derive(Debug)]
pub struct PluginRegistry {
    pub descriptors: Vec<PluginDescriptor>,
}

impl View for PluginRegistry {
    type V = Seq<DescriptorView>;

    open spec fn view(&self) -> Seq<DescriptorView> {
        self.descriptors@.map_values(|d: PluginDescriptor| d@)
    }
}

/// The place of a plugin, or the length where there is none with the name in the namespace.
pub open spec fn plugin_place(
    plugins: Seq<DescriptorView>,
    namespace: Seq<char>,
    name: Seq<char>,
) -> int {
    first_place(plugins, |d: DescriptorView| d.namespace == namespace && d.name == name)
}

/// Whether there is a plugin with a name in a namespace.
pub open spec fn known(
    plugins: Seq<DescriptorView>,
    namespace: Seq<char>,
    name: Seq<char>,
) -> bool {
    plugin_place(plugins, namespace, name) < plugins.len()
}

/// No two plugins of a namespace have the same name.
pub open spec fn distinct(plugins: Seq<DescriptorView>) -> bool {
    forall|i: int, j: int|
        0 <= i < j < plugins.len() ==> (#[trigger] plugins[i]).namespace != (
        #[trigger] plugins[j]).namespace || plugins[i].name != plugins[j].name
}

/// What speaks against one more plugin.
pub open spec fn register_fault(plugins: Seq<DescriptorView>, new: DescriptorView) -> Option<
    Seq<char>,
> {
    match identifier_fault("namespace"@, new.namespace) {
        Some(text) => Some(text),
        None => match identifier_fault("插件名"@, new.name) {
            Some(text) => Some(text),
            None => if known(plugins, new.namespace, new.name) {
                Some(
                    "namespace `"@ + new.namespace + "` 的插件 `"@ + new.name + "` 重复注册："@
                        + plugins[plugin_place(plugins, new.namespace, new.name)].source + " 与 "@
                        + new.source,
                )
            } else {
                None
            },
        },
    }
}

/// What comes of registering several plugins, one after the other.
pub open spec fn registered(plugins: Seq<DescriptorView>) -> Result<
    Seq<DescriptorView>,
    Seq<char>,
>
    decreases plugins.len(),
{
    if plugins.len() == 0 {
        Ok(Seq::empty())
    } else {
        match registered(plugins.drop_last()) {
            Err(text) => Err(text),
            Ok(before) => match register_fault(before, plugins.last()) {
                Some(text) => Err(text),
                None => Ok(before.push(plugins.last())),
            },
        }
    }
}

/// Whether a plugin with a name is among those of a namespace.
pub open spec fn among(plugins: Seq<DescriptorView>, namespace: Seq<char>, name: Seq<char>) -> bool {
    exists|i: int|
        0 <= i < plugins.len() && (#[trigger] plugins[i]).namespace == namespace && plugins[i].name
            == name
}

/// A plugin is known exactly if it is among the others of its namespace.
pub proof fn lemma_known(plugins: Seq<DescriptorView>, namespace: Seq<char>, name: Seq<char>)
    ensures
        0 <= plugin_place(plugins, namespace, name) <= plugins.len(),
        known(plugins, namespace, name) == among(plugins, namespace, name),
        known(plugins, namespace, name) ==> {
            let place = plugin_place(plugins, namespace, name);
            plugins[place].namespace == namespace && plugins[place].name == name
        },
{
    let holds = |d: DescriptorView| d.namespace == namespace && d.name == name;
    lemma_first_place(plugins, holds);
    let place = first_place(plugins, holds);
    assert(place == plugin_place(plugins, namespace, name));
    if among(plugins, namespace, name) {
        let i = choose|i: int|
            0 <= i < plugins.len() && (#[trigger] plugins[i]).namespace == namespace
                && plugins[i].name == name;
        assert(holds(plugins[i]));
    }
}

impl PluginRegistry {
    /// No plugins.
    pub fn new() -> (registry: PluginRegistry)
        ensures
            registry@.len() == 0,
    {
        PluginRegistry { descriptors: Vec::new() }
    }

    /// Looks for a plugin.
    fn find(&self, namespace: &str, name: &str) -> (place: usize)
        ensures
            place == plugin_place(self@, namespace@, name@),
            place <= self@.len(),
    {
        let ghost all = self@;
        let ghost holds = |d: DescriptorView| d.namespace == namespace@ && d.name == name@;
        let mut i: usize = 0;
        while i < self.descriptors.len() && !(same_text(
            self.descriptors[i].namespace.as_str(),
            namespace,
        ) && same_text(self.descriptors[i].name.as_str(), name))
            invariant
                i <= self.descriptors@.len(),
                all == self@,
                holds == |d: DescriptorView| d.namespace == namespace@ && d.name == name@,
                forall|k: int| 0 <= k < i ==> !holds(#[trigger] all[k]),
            decreases self.descriptors@.len() - i,
        {
            assert(all[i as int] == self.descriptors@[i as int]@);
            i += 1;
        }
        proof {
            if i < self.descriptors@.len() {
                assert(all[i as int] == self.descriptors@[i as int]@);
            }
            lemma_first_place_is(all, holds, i as int);
        }
        i
    }

    /// Takes one more plugin in.
    pub fn register(&mut self, descriptor: PluginDescriptor) -> (result: Result<(), Error>)
        ensures
            match register_fault(old(self)@, descriptor@) {
                Some(text) => {
                    &&& result matches Err(error) && error is Config && error.text() == text
                    &&& final(self)@ == old(self)@
                },
                None => result is Ok && final(self)@ == old(self)@.push(descriptor@),
            },
            distinct(old(self)@) ==> distinct(final(self)@),
    {
        match validate_identifier("namespace", descriptor.namespace.as_str()) {
            Err(error) => {
                return Err(error);
            },
            Ok(()) => {},
        }
        match validate_identifier("插件名", descriptor.name.as_str()) {
            Err(error) => {
                return Err(error);
            },
            Ok(()) => {},
        }
        let place: usize = self.find(descriptor.namespace.as_str(), descriptor.name.as_str());
        if place < self.descriptors.len() {
            assert(self@[place as int] == self.descriptors@[place as int]@);
            let mut text = "namespace `".to_owned();
            text.append(descriptor.namespace.as_str());
            text.append("` 的插件 `");
            text.append(descriptor.name.as_str());
            text.append("` 重复注册：");
            text.append(self.descriptors[place].source.as_str());
            text.append(" 与 ");
            text.append(descriptor.source.as_str());
            return Err(Error::Config(text));
        }
        let ghost before = self@;
        self.descriptors.push(descriptor);
        assert(self@ =~= before.push(descriptor@));
        proof {
            lemma_known(before, descriptor@.namespace, descriptor@.name);
        }
        Ok(())
    }

    /// Takes several plugins in, one after the other.
    pub fn from_descriptors(descriptors: Vec<PluginDescriptor>) -> (result: Result<
        PluginRegistry,
        Error,
    >)
        ensures
            match registered(descriptors@.map_values(|d: PluginDescriptor| d@)) {
                Ok(plugins) => {
                    &&& result matches Ok(registry)
                    &&& registry@ == plugins
                    &&& distinct(plugins)
                },
                Err(text) => result matches Err(error) && error is Config && error.text() == text,
            },
    {
        let ghost all = descriptors@.map_values(|d: PluginDescriptor| d@);
        let mut rest = descriptors;
        let mut registry = PluginRegistry::new();
        let ghost mut done: int = 0;
        assert(rest@.map_values(|d: PluginDescriptor| d@) =~= all.skip(0));
        assert(registry@ =~= Seq::empty());
        assert(all.take(0) =~= Seq::empty());
        while rest.len() > 0
            invariant
                all == descriptors@.map_values(|d: PluginDescriptor| d@),
                0 <= done <= all.len(),
                rest@.len() == all.len() - done,
                rest@.map_values(|d: PluginDescriptor| d@) == all.skip(done),
                registered(all.take(done)) == Ok::<Seq<DescriptorView>, Seq<char>>(registry@),
                distinct(registry@),
            decreases rest@.len(),
        {
            let ghost before = rest@.map_values(|d: PluginDescriptor| d@);
            let descriptor = rest.remove(0);
            assert(before[0] == descriptor@);
            assert(rest@.map_values(|d: PluginDescriptor| d@) =~= before.skip(1));
            assert(before.skip(1) =~= all.skip(done + 1));
            assert(all.take(done + 1).drop_last() =~= all.take(done));
            assert(all.take(done + 1).last() == descriptor@);
            match registry.register(descriptor) {
                Err(error) => {
                    proof {
                        lemma_register_failure_stays(all, done + 1);
                    }
                    return Err(error);
                },
                Ok(()) => {},
            }
            proof {
                done = done + 1;
            }
        }
        assert(all.take(done) =~= all);
        Ok(registry)
    }

    /// A plugin by its name.
    pub fn get(&self, namespace: &str, name: &str) -> (descriptor: Option<&PluginDescriptor>)
        ensures
            match descriptor {
                Some(descriptor) => {
                    &&& known(self@, namespace@, name@)
                    &&& descriptor@ == self@[plugin_place(self@, namespace@, name@)]
                    &&& descriptor@.namespace == namespace@
                    &&& descriptor@.name == name@
                },
                None => !known(self@, namespace@, name@),
            },
    {
        let place: usize = self.find(namespace, name);
        proof {
            lemma_known(self@, namespace@, name@);
        }
        if place < self.descriptors.len() {
            assert(self@[place as int] == self.descriptors@[place as int]@);
            Some(&self.descriptors[place])
        } else {
            None
        }
    }

    /// The names of the plugins of a namespace, in the order of the alphabet.
    pub fn plugins(&self, namespace: &str) -> (names: Vec<String>)
        requires
            distinct(self@),
        ensures
            ascending(texts(names@)),
            forall|name: Seq<char>|
                texts(names@).contains(name) <==> among(self@, namespace@, name),
    {
        let ghost all = self@;
        let mut names: Vec<String> = Vec::new();
        let mut i: usize = 0;
        assert(texts(names@) =~= Seq::empty());
        while i < self.descriptors.len()
            invariant
                i <= self.descriptors@.len(),
                all == self@,
                distinct(all),
                ascending(texts(names@)),
                forall|name: Seq<char>|
                    texts(names@).contains(name) <==> among(all.take(i as int), namespace@, name),
            decreases self.descriptors@.len() - i,
        {
            let ghost held = texts(names@);
            let ghost part = all.take(i as int);
            let ghost longer = all.take(i + 1);
            let ghost one = all[i as int];
            assert(one == self.descriptors@[i as int]@);
            assert(longer =~= part.push(one));
            if same_text(self.descriptors[i].namespace.as_str(), namespace) {
                assert(!held.contains(one.name)) by {
                    if held.contains(one.name) {
                        assert(among(part, namespace@, one.name));
                        let k = choose|k: int|
                            0 <= k < part.len() && (#[trigger] part[k]).namespace == namespace@
                                && part[k].name == one.name;
                        assert(all[k] == part[k]);
                    }
                }
                insert_text(&mut names, self.descriptors[i].name.clone());
            }
            assert forall|name: Seq<char>|
                texts(names@).contains(name) <==> among(longer, namespace@, name) by {
                if among(longer, namespace@, name) {
                    let k = choose|k: int|
                        0 <= k < longer.len() && (#[trigger] longer[k]).namespace == namespace@
                            && longer[k].name == name;
                    if k < i {
                        assert(part[k] == longer[k]);
                        assert(among(part, namespace@, name));
                    }
                }
                if among(part, namespace@, name) {
                    let k = choose|k: int|
                        0 <= k < part.len() && (#[trigger] part[k]).namespace == namespace@
                            && part[k].name == name;
                    assert(longer[k] == part[k]);
                }
                if one.namespace == namespace@ && one.name == name {
                    assert(longer[i as int] == one);
                }
            }
            i += 1;
        }
        assert(all.take(i as int) =~= all);
        names
    }
}

/// A failure on some of the plugins is the failure on all of them.
proof fn lemma_register_failure_stays(plugins: Seq<DescriptorView>, count: int)
    requires
        0 <= count <= plugins.len(),
        registered(plugins.take(count)) is Err,
    ensures
        registered(plugins) == registered(plugins.take(count)),
    decreases plugins.len() - count,
{
    if count == plugins.len() {
        assert(plugins.take(count) =~= plugins);
    } else {
        assert(plugins.take(count + 1).drop_last() =~= plugins.take(count));
        lemma_register_failure_stays(plugins, count + 1);
    }
}

/// The order of plugins: by their namespaces, then by their names, then by where they are written.
pub open spec fn stands_before(first: DescriptorView, second: DescriptorView) -> bool {
    if first.namespace != second.namespace {
        precedes(first.namespace, second.namespace)
    } else if first.name != second.name {
        precedes(first.name, second.name)
    } else {
        precedes(first.source, second.source)
    }
}

/// Whether one plugin stands before another.
fn is_earlier(first: &PluginDescriptor, second: &PluginDescriptor) -> (earlier: bool)
    ensures
        earlier == stands_before(first@, second@),
{
    if !same_text(first.namespace.as_str(), second.namespace.as_str()) {
        is_before(first.namespace.as_str(), second.namespace.as_str())
    } else if !same_text(first.name.as_str(), second.name.as_str()) {
        is_before(first.name.as_str(), second.name.as_str())
    } else {
        is_before(first.source.as_str(), second.source.as_str())
    }
}

/// The order of plugins is one.
proof fn lemma_stands_before(
    first: DescriptorView,
    second: DescriptorView,
    third: DescriptorView,
)
    ensures
        !stands_before(first, first),
        stands_before(first, second) && stands_before(second, third) ==> stands_before(
            first,
            third,
        ),
{
    lemma_one_precedes(first.source, first.source);
    lemma_one_precedes(first.namespace, second.namespace);
    lemma_one_precedes(first.name, second.name);
    if stands_before(first, second) && stands_before(second, third) {
        if first.namespace != second.namespace && second.namespace != third.namespace {
            lemma_precedes_on(first.namespace, second.namespace, third.namespace);
            lemma_one_precedes(first.namespace, third.namespace);
        } else if first.namespace == second.namespace && second.namespace == third.namespace {
            if first.name != second.name && second.name != third.name {
                lemma_precedes_on(first.name, second.name, third.name);
                lemma_one_precedes(first.name, third.name);
            } else if first.name == second.name && second.name == third.name {
                lemma_precedes_on(first.source, second.source, third.source);
            }
        }
    }
}

/// No plugin stands before one in front of it.
pub open spec fn in_alphabet(plugins: Seq<DescriptorView>) -> bool {
    forall|i: int, j: int|
        0 <= i < j < plugins.len() ==> !stands_before(#[trigger] plugins[j], #[trigger] plugins[i])
}

/// What a list of plugins says.
pub open spec fn descriptors_view(descriptors: Seq<PluginDescriptor>) -> Seq<DescriptorView> {
    descriptors.map_values(|d: PluginDescriptor| d@)
}

/// Puts a plugin where it belongs among others that are in order.
fn insert_descriptor(list: &mut Vec<PluginDescriptor>, descriptor: PluginDescriptor)
    requires
        in_alphabet(descriptors_view(old(list)@)),
    ensures
        in_alphabet(descriptors_view(final(list)@)),
        exists|place: int|
            0 <= place <= old(list)@.len() && descriptors_view(final(list)@)
                == #[trigger] descriptors_view(old(list)@).insert(place, descriptor@),
{
    let ghost before = descriptors_view(list@);
    let ghost new = descriptor@;
    let mut i: usize = 0;
    while i < list.len() && !is_earlier(&descriptor, &list[i])
        invariant
            i <= list@.len(),
            list@ == old(list)@,
            before == descriptors_view(list@),
            new == descriptor@,
            forall|k: int| 0 <= k < i ==> !stands_before(new, #[trigger] before[k]),
        decreases list@.len() - i,
    {
        assert(before[i as int] == list@[i as int]@);
        i += 1;
    }
    proof {
        if i < list@.len() {
            assert(before[i as int] == list@[i as int]@);
        }
    }
    list.insert(i, descriptor);
    let ghost after = descriptors_view(list@);
    assert(after =~= before.insert(i as int, new));
    assert forall|a: int, b: int| 0 <= a < b < after.len() implies !stands_before(
        #[trigger] after[b],
        #[trigger] after[a],
    ) by {
        if b == i {
            assert(before[a] == after[a]);
        } else if a == i {
            assert(before[b - 1] == after[b]);
            lemma_stands_before(before[b - 1], new, before[i as int]);
            lemma_stands_before(before[b - 1], before[b - 1], before[b - 1]);
        } else {
            let from = if a < i {
                a
            } else {
                a - 1
            };
            let to = if b < i {
                b
            } else {
                b - 1
            };
            assert(before[from] == after[a]);
            assert(before[to] == after[b]);
        }
    }
}

/// Puts plugins in order.
pub fn sort_descriptors(descriptors: Vec<PluginDescriptor>) -> (sorted: Vec<PluginDescriptor>)
    ensures
        in_alphabet(descriptors_view(sorted@)),
        descriptors_view(sorted@).to_multiset() == descriptors_view(descriptors@).to_multiset(),
{
    let ghost all = descriptors_view(descriptors@);
    let mut rest = descriptors;
    let mut sorted: Vec<PluginDescriptor> = Vec::new();
    let ghost mut done: int = 0;
    assert(descriptors_view(rest@) =~= all.skip(0));
    assert(descriptors_view(sorted@) =~= all.take(0));
    while rest.len() > 0
        invariant
            all == descriptors_view(descriptors@),
            0 <= done <= all.len(),
            rest@.len() == all.len() - done,
            descriptors_view(rest@) == all.skip(done),
            in_alphabet(descriptors_view(sorted@)),
            descriptors_view(sorted@).to_multiset() == all.take(done).to_multiset(),
        decreases rest@.len(),
    {
        broadcast use vstd::seq_lib::group_to_multiset_ensures;

        let ghost before = descriptors_view(rest@);
        let ghost shorter = descriptors_view(sorted@);
        let descriptor = rest.remove(0);
        assert(before[0] == descriptor@);
        assert(descriptors_view(rest@) =~= before.skip(1));
        assert(before.skip(1) =~= all.skip(done + 1));
        insert_descriptor(&mut sorted, descriptor);
        proof {
            let place = choose|place: int|
                0 <= place <= shorter.len() && descriptors_view(sorted@)
                    == #[trigger] shorter.insert(place, descriptor@);
            vstd::seq_lib::to_multiset_insert(shorter, place, descriptor@);
            assert(all.take(done + 1) =~= all.take(done).push(descriptor@));
            done = done + 1;
        }
    }
    assert(all.take(done) =~= all);
    sorted
}

/// The same name can be used in different namespaces.
pub proof fn law_names_are_unique_within_a_namespace_only(
    plugins: Seq<DescriptorView>,
    new: DescriptorView,
)
    requires
        !blank(new.namespace),
        !blank(new.name),
    ensures
        register_fault(plugins, new) is None <==> !among(plugins, new.namespace, new.name),
{
    lemma_known(plugins, new.namespace, new.name);
}

} // verus!
