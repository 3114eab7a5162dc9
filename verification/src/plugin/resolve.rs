//! Which plugins a service brings up, and in what order.

use crate::error::Error;
#[allow(unused_imports)]
use crate::places::{first_place, lemma_first_place, lemma_first_place_is};
#[allow(unused_imports)]
use crate::plugin::order::{deps_ok, deps_view, in_order, numbers};
use crate::plugin::order::order;
#[allow(unused_imports)]
use crate::plugin::registry::{
    among, distinct, identifier_fault, known, plugin_place, DescriptorView,
};
use crate::plugin::registry::{validate_identifier, CommandId, PluginRegistry};
#[allow(unused_imports)]
use crate::text::{
    ascending, decimal, lemma_one_precedes, precedes, text_place, texts,
};
use crate::text::{find_text, push_decimal};
use vstd::prelude::*;

verus! {

/// How the standard library writes a list of texts when asked for its debugging form.
pub uninterp spec fn debug_list(list: Seq<Seq<char>>) -> Seq<char>;

/// Writes a list of texts with `{:?}`. The result is a function of the texts, and has a name.
#[verifier::external_body]
fn debug_texts(list: &Vec<String>) -> (text: String)
    ensures
        text@ == debug_list(texts(list@)),
{
    format!("{:?}", list)
}

/// The names of the plugins of a namespace, in the order of the alphabet.
pub open spec fn is_names(
    plugins: Seq<DescriptorView>,
    namespace: Seq<char>,
    names: Seq<Seq<char>>,
) -> bool {
    &&& ascending(names)
    &&& forall|name: Seq<char>| names.contains(name) <==> among(plugins, namespace, name)
}

/// The names of the plugins of a namespace, in the order of the alphabet.
pub open spec fn names_of(plugins: Seq<DescriptorView>, namespace: Seq<char>) -> Seq<Seq<char>> {
    choose|names: Seq<Seq<char>>| is_names(plugins, namespace, names)
}

/// There is only one list of ascending texts that holds given ones.
proof fn lemma_one_list(first: Seq<Seq<char>>, second: Seq<Seq<char>>)
    requires
        ascending(first),
        ascending(second),
        forall|t: Seq<char>| first.contains(t) <==> second.contains(t),
    ensures
        first == second,
    decreases first.len(),
{
    if first.len() == 0 {
        if second.len() > 0 {
            assert(second.contains(second[0]));
        }
        assert(first =~= second);
    } else {
        let a = first.last();
        assert(first.contains(a));
        assert(second.contains(a));
        let b = second.last();
        assert(second.contains(b));
        assert(first.contains(b));
        assert(a == b) by {
            let i = choose|i: int| 0 <= i < first.len() && first[i] == b;
            let j = choose|j: int| 0 <= j < second.len() && second[j] == a;
            lemma_one_precedes(a, b);
            if i < first.len() - 1 {
                assert(precedes(first[i], first[first.len() - 1]));
                if j < second.len() - 1 {
                    assert(precedes(second[j], second[second.len() - 1]));
                }
            }
        }
        let front = first.drop_last();
        let rest = second.drop_last();
        assert forall|t: Seq<char>| front.contains(t) <==> rest.contains(t) by {
            if front.contains(t) {
                let i = choose|i: int| 0 <= i < front.len() && front[i] == t;
                assert(first[i] == t);
                assert(precedes(first[i], first[first.len() - 1]));
                lemma_one_precedes(t, a);
                assert(second.contains(t));
                let j = choose|j: int| 0 <= j < second.len() && second[j] == t;
                assert(rest[j] == t);
            }
            if rest.contains(t) {
                let i = choose|i: int| 0 <= i < rest.len() && rest[i] == t;
                assert(second[i] == t);
                assert(precedes(second[i], second[second.len() - 1]));
                lemma_one_precedes(t, b);
                assert(first.contains(t));
                let j = choose|j: int| 0 <= j < first.len() && first[j] == t;
                assert(front[j] == t);
            }
        }
        assert(ascending(front));
        assert(ascending(rest));
        lemma_one_list(front, rest);
        assert(first =~= front.push(a));
        assert(second =~= rest.push(b));
    }
}

/// What is wrong with the names of the plugins that a configuration lists: one is missing, or
/// occurs twice.
pub open spec fn listing_fault(namespace: Seq<char>, names: Seq<Seq<char>>) -> Option<Seq<char>>
    decreases names.len(),
{
    if names.len() == 0 {
        None
    } else {
        match listing_fault(namespace, names.drop_last()) {
            Some(text) => Some(text),
            None => match identifier_fault(
                "插件配置第 "@ + decimal(names.len()) + " 项的 name"@,
                names.last(),
            ) {
                Some(text) => Some(text),
                None => if names.drop_last().contains(names.last()) {
                    Some(
                        "namespace `"@ + namespace + "` 的插件 `"@ + names.last()
                            + "` 在配置中出现多次"@,
                    )
                } else {
                    None
                },
            },
        }
    }
}

/// The first name under which there is no plugin.
pub open spec fn unknown_fault(
    plugins: Seq<DescriptorView>,
    namespace: Seq<char>,
    names: Seq<Seq<char>>,
) -> Option<Seq<char>>
    decreases names.len(),
{
    if names.len() == 0 {
        None
    } else {
        match unknown_fault(plugins, namespace, names.drop_last()) {
            Some(text) => Some(text),
            None => if known(plugins, namespace, names.last()) {
                None
            } else {
                Some(
                    "namespace `"@ + namespace + "` 未注册插件 `"@ + names.last() + "`；已注册："@
                        + debug_list(names_of(plugins, namespace)),
                )
            },
        }
    }
}

/// A plugin of a namespace.
pub open spec fn plugin(
    plugins: Seq<DescriptorView>,
    namespace: Seq<char>,
    name: Seq<char>,
) -> DescriptorView {
    plugins[plugin_place(plugins, namespace, name)]
}

/// The first of these names that is not among the others.
pub open spec fn absent(wanted: Seq<Seq<char>>, names: Seq<Seq<char>>) -> Option<Seq<char>>
    decreases wanted.len(),
{
    if wanted.len() == 0 {
        None
    } else {
        match absent(wanted.drop_last(), names) {
            Some(name) => Some(name),
            None => if names.contains(wanted.last()) {
                None
            } else {
                Some(wanted.last())
            },
        }
    }
}

/// The first plugin of those listed that depends on one that is not.
pub open spec fn dependency_fault(
    plugins: Seq<DescriptorView>,
    namespace: Seq<char>,
    names: Seq<Seq<char>>,
    part: Seq<Seq<char>>,
) -> Option<Seq<char>>
    decreases part.len(),
{
    if part.len() == 0 {
        None
    } else {
        match dependency_fault(plugins, namespace, names, part.drop_last()) {
            Some(text) => Some(text),
            None => match absent(plugin(plugins, namespace, part.last()).dependencies, names) {
                Some(dependency) => Some(
                    "namespace `"@ + namespace + "` 的插件 `"@ + part.last()
                        + "` 依赖未启用的插件 `"@ + dependency + "`"@,
                ),
                None => None,
            },
        }
    }
}

/// The commands of the plugins that are listed, each with the plugin that has it.
pub open spec fn claims(
    plugins: Seq<DescriptorView>,
    namespace: Seq<char>,
    names: Seq<Seq<char>>,
) -> Seq<(CommandId, Seq<char>)>
    decreases names.len(),
{
    if names.len() == 0 {
        Seq::empty()
    } else {
        claims(plugins, namespace, names.drop_last()) + plugin(
            plugins,
            namespace,
            names.last(),
        ).commands.map_values(|c: CommandId| (c, names.last()))
    }
}

/// Which of the commands that plugins have is this one.
pub open spec fn has_command(command: CommandId) -> spec_fn((CommandId, Seq<char>)) -> bool {
    |c: (CommandId, Seq<char>)| c.0 == command
}

/// The place of a command among those that plugins have, or the length where none has it.
pub open spec fn claim_place(claims: Seq<(CommandId, Seq<char>)>, command: CommandId) -> int {
    first_place(claims, has_command(command))
}

/// The first command that two plugins have.
pub open spec fn command_fault(namespace: Seq<char>, claims: Seq<(CommandId, Seq<char>)>) -> Option<
    Seq<char>,
>
    decreases claims.len(),
{
    if claims.len() == 0 {
        None
    } else {
        let before = claims.drop_last();
        match command_fault(namespace, before) {
            Some(text) => Some(text),
            None => {
                let place = claim_place(before, claims.last().0);
                if place < before.len() {
                    Some(
                        "namespace `"@ + namespace + "` 的命令 "@ + decimal(
                            claims.last().0.0 as nat,
                        ) + " 被插件 `"@ + before[place].1 + "` 与 `"@ + claims.last().1
                            + "` 重复声明"@,
                    )
                } else {
                    None
                }
            },
        }
    }
}

/// What each of the plugins that are listed depends on, by their places in the list.
pub open spec fn deps_of(
    plugins: Seq<DescriptorView>,
    namespace: Seq<char>,
    names: Seq<Seq<char>>,
) -> Seq<Seq<int>> {
    names.map_values(
        |name: Seq<char>|
            plugin(plugins, namespace, name).dependencies.map_values(
                |d: Seq<char>| text_place(names, d),
            ),
    )
}

/// What is wrong with a list of plugins, but for what depends on itself.
pub open spec fn list_fault(
    plugins: Seq<DescriptorView>,
    namespace: Seq<char>,
    names: Seq<Seq<char>>,
) -> Option<Seq<char>> {
    if listing_fault(namespace, names) is Some {
        listing_fault(namespace, names)
    } else if unknown_fault(plugins, namespace, names) is Some {
        unknown_fault(plugins, namespace, names)
    } else if dependency_fault(plugins, namespace, names, names) is Some {
        dependency_fault(plugins, namespace, names, names)
    } else {
        command_fault(namespace, claims(plugins, namespace, names))
    }
}

/// The places of the plugins that are listed, in the order in which they are brought up, or what
/// is wrong with the list.
pub open spec fn resolved(
    plugins: Seq<DescriptorView>,
    namespace: Seq<char>,
    names: Seq<Seq<char>>,
) -> Result<Seq<int>, Seq<char>> {
    match list_fault(plugins, namespace, names) {
        Some(text) => Err(text),
        None => match in_order(deps_of(plugins, namespace, names)) {
            Ok(order) => Ok(order),
            Err(back) => Err(
                "namespace `"@ + namespace + "` 的插件依赖存在环，回到 `"@ + names[back] + "`"@,
            ),
        },
    }
}

/// Checks the names of the plugins that a configuration lists.
fn check_listing(namespace: &str, names: &Vec<String>) -> (result: Result<(), Error>)
    ensures
        match listing_fault(namespace@, texts(names@)) {
            Some(text) => result matches Err(error) && error is Config && error.text() == text,
            None => result is Ok,
        },
{
    let ghost all = texts(names@);
    let mut i: usize = 0;
    assert(all.take(0) =~= Seq::empty());
    while i < names.len()
        invariant
            i <= names@.len(),
            all == texts(names@),
            listing_fault(namespace@, all.take(i as int)) is None,
        decreases names@.len() - i,
    {
        let ghost part = all.take(i + 1);
        assert(part.drop_last() =~= all.take(i as int));
        assert(part.last() == names@[i as int]@);
        let mut label = "插件配置第 ".to_owned();
        push_decimal(&mut label, i as u64 + 1);
        label.append(" 项的 name");
        assert(label@ == "插件配置第 "@ + decimal(part.len()) + " 项的 name"@);
        match validate_identifier(label.as_str(), names[i].as_str()) {
            Err(error) => {
                proof {
                    lemma_listing_stays(namespace@, all, i + 1);
                }
                return Err(error);
            },
            Ok(()) => {},
        }
        let place: usize = find_text(names, names[i].as_str());
        proof {
            lemma_first_place(all, |t: Seq<char>| t == part.last());
            assert(place == first_place(all, |t: Seq<char>| t == part.last()));
            assert(all[i as int] == part.last());
        }
        if place < i {
            assert(all.take(i as int)[place as int] == part.last());
            assert(part.drop_last().contains(part.last()));
            let mut text = "namespace `".to_owned();
            text.append(namespace);
            text.append("` 的插件 `");
            text.append(names[i].as_str());
            text.append("` 在配置中出现多次");
            proof {
                lemma_listing_stays(namespace@, all, i + 1);
            }
            return Err(Error::Config(text));
        }
        assert(!part.drop_last().contains(part.last())) by {
            if part.drop_last().contains(part.last()) {
                let k = choose|k: int|
                    0 <= k < part.drop_last().len() && part.drop_last()[k] == part.last();
                assert(all[k] == part.last());
            }
        }
        i += 1;
    }
    assert(all.take(i as int) =~= all);
    Ok(())
}

/// A fault in a part of the list is the fault of the list.
proof fn lemma_listing_stays(namespace: Seq<char>, names: Seq<Seq<char>>, count: int)
    requires
        0 <= count <= names.len(),
        listing_fault(namespace, names.take(count)) is Some,
    ensures
        listing_fault(namespace, names) == listing_fault(namespace, names.take(count)),
    decreases names.len() - count,
{
    if count == names.len() {
        assert(names.take(count) =~= names);
    } else {
        assert(names.take(count + 1).drop_last() =~= names.take(count));
        lemma_listing_stays(namespace, names, count + 1);
    }
}

/// The same of names under which there is no plugin.
proof fn lemma_unknown_stays(
    plugins: Seq<DescriptorView>,
    namespace: Seq<char>,
    names: Seq<Seq<char>>,
    count: int,
)
    requires
        0 <= count <= names.len(),
        unknown_fault(plugins, namespace, names.take(count)) is Some,
    ensures
        unknown_fault(plugins, namespace, names) == unknown_fault(
            plugins,
            namespace,
            names.take(count),
        ),
    decreases names.len() - count,
{
    if count == names.len() {
        assert(names.take(count) =~= names);
    } else {
        assert(names.take(count + 1).drop_last() =~= names.take(count));
        lemma_unknown_stays(plugins, namespace, names, count + 1);
    }
}

/// The same of what plugins depend on.
proof fn lemma_dependency_stays(
    plugins: Seq<DescriptorView>,
    namespace: Seq<char>,
    names: Seq<Seq<char>>,
    part: Seq<Seq<char>>,
    count: int,
)
    requires
        0 <= count <= part.len(),
        dependency_fault(plugins, namespace, names, part.take(count)) is Some,
    ensures
        dependency_fault(plugins, namespace, names, part) == dependency_fault(
            plugins,
            namespace,
            names,
            part.take(count),
        ),
    decreases part.len() - count,
{
    if count == part.len() {
        assert(part.take(count) =~= part);
    } else {
        assert(part.take(count + 1).drop_last() =~= part.take(count));
        lemma_dependency_stays(plugins, namespace, names, part, count + 1);
    }
}

/// The same of the first name that is missing.
proof fn lemma_absent_stays(wanted: Seq<Seq<char>>, names: Seq<Seq<char>>, count: int)
    requires
        0 <= count <= wanted.len(),
        absent(wanted.take(count), names) is Some,
    ensures
        absent(wanted, names) == absent(wanted.take(count), names),
    decreases wanted.len() - count,
{
    if count == wanted.len() {
        assert(wanted.take(count) =~= wanted);
    } else {
        assert(wanted.take(count + 1).drop_last() =~= wanted.take(count));
        lemma_absent_stays(wanted, names, count + 1);
    }
}

/// The same of commands.
proof fn lemma_command_stays(namespace: Seq<char>, claims: Seq<(CommandId, Seq<char>)>, count: int)
    requires
        0 <= count <= claims.len(),
        command_fault(namespace, claims.take(count)) is Some,
    ensures
        command_fault(namespace, claims) == command_fault(namespace, claims.take(count)),
    decreases claims.len() - count,
{
    if count == claims.len() {
        assert(claims.take(count) =~= claims);
    } else {
        assert(claims.take(count + 1).drop_last() =~= claims.take(count));
        lemma_command_stays(namespace, claims, count + 1);
    }
}

/// No name is under suspicion when none is unknown.
pub proof fn lemma_all_known(
    plugins: Seq<DescriptorView>,
    namespace: Seq<char>,
    names: Seq<Seq<char>>,
    i: int,
)
    requires
        unknown_fault(plugins, namespace, names) is None,
        0 <= i < names.len(),
    ensures
        known(plugins, namespace, names[i]),
    decreases names.len(),
{
    if i < names.len() - 1 {
        lemma_all_known(plugins, namespace, names.drop_last(), i);
        assert(names.drop_last()[i] == names[i]);
    }
}

/// No dependency is missing when none is said to be.
proof fn lemma_all_present(
    plugins: Seq<DescriptorView>,
    namespace: Seq<char>,
    names: Seq<Seq<char>>,
    part: Seq<Seq<char>>,
    i: int,
)
    requires
        dependency_fault(plugins, namespace, names, part) is None,
        0 <= i < part.len(),
    ensures
        absent(plugin(plugins, namespace, part[i]).dependencies, names) is None,
    decreases part.len(),
{
    if i < part.len() - 1 {
        lemma_all_present(plugins, namespace, names, part.drop_last(), i);
        assert(part.drop_last()[i] == part[i]);
    }
}

/// None of these names is missing when none is said to be.
proof fn lemma_none_absent(wanted: Seq<Seq<char>>, names: Seq<Seq<char>>, k: int)
    requires
        absent(wanted, names) is None,
        0 <= k < wanted.len(),
    ensures
        names.contains(wanted[k]),
    decreases wanted.len(),
{
    if k < wanted.len() - 1 {
        lemma_none_absent(wanted.drop_last(), names, k);
        assert(wanted.drop_last()[k] == wanted[k]);
    }
}

/// What the plugins that are listed depend on is listed.
pub proof fn lemma_deps_are_listed(
    plugins: Seq<DescriptorView>,
    namespace: Seq<char>,
    names: Seq<Seq<char>>,
)
    requires
        dependency_fault(plugins, namespace, names, names) is None,
    ensures
        deps_ok(deps_of(plugins, namespace, names)),
{
    let deps = deps_of(plugins, namespace, names);
    assert forall|i: int, k: int| 0 <= i < deps.len() && 0 <= k < deps[i].len() implies 0
        <= #[trigger] deps[i][k] < deps.len() by {
        let wanted = plugin(plugins, namespace, names[i]).dependencies;
        lemma_all_present(plugins, namespace, names, names, i);
        lemma_none_absent(wanted, names, k);
        let holds = |t: Seq<char>| t == wanted[k];
        lemma_first_place(names, holds);
        assert(deps[i][k] == text_place(names, wanted[k]));
        assert(text_place(names, wanted[k]) == first_place(names, holds));
        let j = choose|j: int| 0 <= j < names.len() && names[j] == wanted[k];
        assert(holds(names[j]));
    }
}

/// A command and the plugin that has it.
#[derive(Debug, Clone)]
pub struct Claim {
    pub command: CommandId,
    pub plugin: String,
}

/// What a list of commands says.
pub open spec fn claims_view(claims: Seq<Claim>) -> Seq<(CommandId, Seq<char>)> {
    claims.map_values(|c: Claim| (c.command, c.plugin@))
}

/// Looks for a command among those that plugins have.
pub fn find_claim(claims: &Vec<Claim>, command: CommandId) -> (place: usize)
    ensures
        place == claim_place(claims_view(claims@), command),
        place <= claims@.len(),
        place < claims@.len() ==> claims@[place as int].command == command,
{
    let ghost all = claims_view(claims@);
    let ghost holds = has_command(command);
    let mut i: usize = 0;
    while i < claims.len() && claims[i].command != command
        invariant
            i <= claims@.len(),
            all == claims_view(claims@),
            holds == has_command(command),
            forall|k: int| 0 <= k < i ==> !holds(#[trigger] all[k]),
        decreases claims@.len() - i,
    {
        assert(all[i as int].0 == claims@[i as int].command);
        i += 1;
    }
    proof {
        if i < claims@.len() {
            assert(all[i as int].0 == claims@[i as int].command);
            assert(holds(all[i as int]));
        }
        lemma_first_place_is(all, holds, i as int);
    }
    i
}

impl PluginRegistry {
    /// Checks that there is a plugin under each name.
    fn check_known(&self, namespace: &str, names: &Vec<String>) -> (result: Result<(), Error>)
        requires
            distinct(self@),
        ensures
            match unknown_fault(self@, namespace@, texts(names@)) {
                Some(text) => result matches Err(error) && error is Config && error.text() == text,
                None => result is Ok,
            },
    {
        let ghost all = texts(names@);
        let mut i: usize = 0;
        assert(all.take(0) =~= Seq::empty());
        while i < names.len()
            invariant
                i <= names@.len(),
                all == texts(names@),
                distinct(self@),
                unknown_fault(self@, namespace@, all.take(i as int)) is None,
            decreases names@.len() - i,
        {
            assert(all.take(i + 1).drop_last() =~= all.take(i as int));
            assert(all.take(i + 1).last() == names@[i as int]@);
            if self.get(namespace, names[i].as_str()).is_none() {
                let registered = self.plugins(namespace);
                proof {
                    let list = texts(registered@);
                    assert(is_names(self@, namespace@, list));
                    lemma_one_list(list, names_of(self@, namespace@));
                }
                let mut text = "namespace `".to_owned();
                text.append(namespace);
                text.append("` 未注册插件 `");
                text.append(names[i].as_str());
                text.append("`；已注册：");
                text.append(debug_texts(&registered).as_str());
                proof {
                    lemma_unknown_stays(self@, namespace@, all, i + 1);
                }
                return Err(Error::Config(text));
            }
            i += 1;
        }
        assert(all.take(i as int) =~= all);
        Ok(())
    }

    /// Checks that what each plugin depends on is listed, and says where.
    fn check_dependencies(&self, namespace: &str, names: &Vec<String>) -> (result: Result<
        Vec<Vec<usize>>,
        Error,
    >)
        requires
            unknown_fault(self@, namespace@, texts(names@)) is None,
        ensures
            match dependency_fault(self@, namespace@, texts(names@), texts(names@)) {
                Some(text) => result matches Err(error) && error is Config && error.text() == text,
                None => result matches Ok(deps) && deps_view(deps@) == deps_of(
                    self@,
                    namespace@,
                    texts(names@),
                ),
            },
    {
        let ghost all = texts(names@);
        let ghost expected = deps_of(self@, namespace@, all);
        let mut deps: Vec<Vec<usize>> = Vec::new();
        let mut i: usize = 0;
        assert(all.take(0) =~= Seq::empty());
        while i < names.len()
            invariant
                i <= names@.len(),
                all == texts(names@),
                expected == deps_of(self@, namespace@, all),
                unknown_fault(self@, namespace@, all) is None,
                dependency_fault(self@, namespace@, all, all.take(i as int)) is None,
                deps@.len() == i,
                forall|k: int| 0 <= k < i ==> numbers((#[trigger] deps@[k])@) == expected[k],
            decreases names@.len() - i,
        {
            assert(all.take(i + 1).drop_last() =~= all.take(i as int));
            assert(all.take(i + 1).last() == names@[i as int]@);
            proof {
                lemma_all_known(self@, namespace@, all, i as int);
            }
            match self.get(namespace, names[i].as_str()) {
                Some(descriptor) => {
                    let ghost wanted = descriptor@.dependencies;
                    assert(wanted == plugin(self@, namespace@, all[i as int]).dependencies);
                    let mut places: Vec<usize> = Vec::new();
                    let mut k: usize = 0;
                    assert(wanted.take(0) =~= Seq::empty());
                    while k < descriptor.dependencies.len()
                        invariant
                            k <= descriptor.dependencies@.len(),
                            i < names@.len(),
                            all == texts(names@),
                            wanted == texts(descriptor.dependencies@),
                            wanted == plugin(self@, namespace@, all[i as int]).dependencies,
                            dependency_fault(self@, namespace@, all, all.take(i as int)) is None,
                            all.take(i + 1).drop_last() == all.take(i as int),
                            all.take(i + 1).last() == all[i as int],
                            absent(wanted.take(k as int), all) is None,
                            places@.len() == k,
                            forall|j: int|
                                0 <= j < k ==> (#[trigger] places@[j]) as int == text_place(
                                    all,
                                    wanted[j],
                                ),
                        decreases descriptor.dependencies@.len() - k,
                    {
                        assert(wanted.take(k + 1).drop_last() =~= wanted.take(k as int));
                        assert(wanted.take(k + 1).last() == descriptor.dependencies@[k as int]@);
                        let place: usize = find_text(names, descriptor.dependencies[k].as_str());
                        if place >= names.len() {
                            let mut text = "namespace `".to_owned();
                            text.append(namespace);
                            text.append("` 的插件 `");
                            text.append(names[i].as_str());
                            text.append("` 依赖未启用的插件 `");
                            text.append(descriptor.dependencies[k].as_str());
                            text.append("`");
                            proof {
                                lemma_absent_stays(wanted, all, k + 1);
                                lemma_dependency_stays(self@, namespace@, all, all, i + 1);
                            }
                            return Err(Error::Config(text));
                        }
                        places.push(place);
                        k += 1;
                    }
                    assert(wanted.take(k as int) =~= wanted);
                    assert(numbers(places@) =~= expected[i as int]);
                    deps.push(places);
                },
                None => {},
            }
            i += 1;
        }
        assert(all.take(i as int) =~= all);
        assert(deps_view(deps@) =~= expected);
        Ok(deps)
    }

    /// Checks that no two of the plugins that are listed have the same command, and lists the
    /// commands.
    pub fn check_commands(&self, namespace: &str, names: &Vec<String>) -> (result: Result<
        Vec<Claim>,
        Error,
    >)
        requires
            unknown_fault(self@, namespace@, texts(names@)) is None,
        ensures
            match command_fault(namespace@, claims(self@, namespace@, texts(names@))) {
                Some(text) => result matches Err(error) && error is Config && error.text() == text,
                None => result matches Ok(list) && claims_view(list@) == claims(
                    self@,
                    namespace@,
                    texts(names@),
                ),
            },
    {
        let ghost all = texts(names@);
        let ghost expected = claims(self@, namespace@, all);
        let mut list: Vec<Claim> = Vec::new();
        let mut i: usize = 0;
        assert(all.take(0) =~= Seq::empty());
        assert(claims_view(list@) =~= Seq::empty());
        while i < names.len()
            invariant
                i <= names@.len(),
                all == texts(names@),
                expected == claims(self@, namespace@, all),
                unknown_fault(self@, namespace@, all) is None,
                claims_view(list@) == claims(self@, namespace@, all.take(i as int)),
                command_fault(namespace@, claims_view(list@)) is None,
            decreases names@.len() - i,
        {
            let ghost before = claims_view(list@);
            let ghost part = all.take(i + 1);
            assert(part.drop_last() =~= all.take(i as int));
            assert(part.last() == names@[i as int]@);
            proof {
                lemma_all_known(self@, namespace@, all, i as int);
            }
            match self.get(namespace, names[i].as_str()) {
                Some(descriptor) => {
                    let ghost name = all[i as int];
                    let ghost more = descriptor@.commands.map_values(|c: CommandId| (c, name));
                    assert(claims(self@, namespace@, part) =~= before + more);
                    let mut k: usize = 0;
                    assert(before + more.take(0) =~= before);
                    while k < descriptor.commands.len()
                        invariant
                            k <= descriptor.commands@.len(),
                            i < names@.len(),
                            name == names@[i as int]@,
                            all == texts(names@),
                            expected == claims(self@, namespace@, all),
                            more == descriptor.commands@.map_values(|c: CommandId| (c, name)),
                            claims(self@, namespace@, all.take(i + 1)) == before + more,
                            claims_view(list@) == before + more.take(k as int),
                            command_fault(namespace@, claims_view(list@)) is None,
                        decreases descriptor.commands@.len() - k,
                    {
                        let command = descriptor.commands[k];
                        let ghost held = claims_view(list@);
                        let ghost longer = before + more.take(k + 1);
                        assert(longer =~= held.push((command, name)));
                        assert(longer.drop_last() =~= held);
                        let place: usize = find_claim(&list, command);
                        if place < list.len() {
                            assert(held[place as int] == (
                                list@[place as int].command,
                                list@[place as int].plugin@,
                            ));
                            let mut text = "namespace `".to_owned();
                            text.append(namespace);
                            text.append("` 的命令 ");
                            push_decimal(&mut text, command.0 as u64);
                            text.append(" 被插件 `");
                            text.append(list[place].plugin.as_str());
                            text.append("` 与 `");
                            text.append(names[i].as_str());
                            text.append("` 重复声明");
                            proof {
                                let whole = before + more;
                                assert(whole.take(longer.len() as int) =~= longer);
                                lemma_command_stays(namespace@, whole, longer.len() as int);
                                lemma_claims_grow(self@, namespace@, all, i + 1);
                                assert(expected.take(whole.len() as int) == whole);
                                lemma_command_stays(namespace@, expected, whole.len() as int);
                            }
                            return Err(Error::Config(text));
                        }
                        list.push(Claim { command, plugin: names[i].clone() });
                        assert(claims_view(list@) =~= held.push((command, name)));
                        k += 1;
                    }
                    assert(more.take(k as int) =~= more);
                },
                None => {},
            }
            i += 1;
        }
        assert(all.take(i as int) =~= all);
        Ok(list)
    }

    /// The places of the plugins that are listed, in the order in which they are brought up.
    pub fn resolve(&self, namespace: &str, names: &Vec<String>) -> (result: Result<
        Vec<usize>,
        Error,
    >)
        requires
            distinct(self@),
        ensures
            match resolved(self@, namespace@, texts(names@)) {
                Ok(order) => result matches Ok(places) && numbers(places@) == order,
                Err(text) => result matches Err(error) && error is Config && error.text() == text,
            },
    {
        match check_listing(namespace, names) {
            Err(error) => {
                return Err(error);
            },
            Ok(()) => {},
        }
        match self.check_known(namespace, names) {
            Err(error) => {
                return Err(error);
            },
            Ok(()) => {},
        }
        let deps = match self.check_dependencies(namespace, names) {
            Err(error) => {
                return Err(error);
            },
            Ok(deps) => deps,
        };
        match self.check_commands(namespace, names) {
            Err(error) => {
                return Err(error);
            },
            Ok(_) => {},
        }
        proof {
            lemma_deps_are_listed(self@, namespace@, texts(names@));
        }
        match order(&deps) {
            Ok(places) => Ok(places),
            Err(back) => {
                proof {
                    crate::plugin::order::law_a_failure_shows_a_cycle(deps_view(deps@));
                }
                let mut text = "namespace `".to_owned();
                text.append(namespace);
                text.append("` 的插件依赖存在环，回到 `");
                text.append(names[back].as_str());
                text.append("`");
                Err(Error::Config(text))
            },
        }
    }
}

/// The commands of the first plugins are the first commands.
proof fn lemma_claims_grow(
    plugins: Seq<DescriptorView>,
    namespace: Seq<char>,
    names: Seq<Seq<char>>,
    count: int,
)
    requires
        0 <= count <= names.len(),
    ensures
        claims(plugins, namespace, names.take(count)).len() <= claims(
            plugins,
            namespace,
            names,
        ).len(),
        claims(plugins, namespace, names).take(
            claims(plugins, namespace, names.take(count)).len() as int,
        ) == claims(plugins, namespace, names.take(count)),
    decreases names.len() - count,
{
    let first = claims(plugins, namespace, names.take(count));
    if count == names.len() {
        assert(names.take(count) =~= names);
        assert(first.take(first.len() as int) =~= first);
    } else {
        lemma_claims_grow(plugins, namespace, names, count + 1);
        assert(names.take(count + 1).drop_last() =~= names.take(count));
        let next = claims(plugins, namespace, names.take(count + 1));
        let all = claims(plugins, namespace, names);
        assert(next.take(first.len() as int) =~= first);
        assert(all.take(first.len() as int) =~= all.take(next.len() as int).take(
            first.len() as int,
        ));
    }
}

} // verus!
