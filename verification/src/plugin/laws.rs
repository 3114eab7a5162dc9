//! What holds of the plugins of a service: which lists of them are accepted, in what order they
//! come up, and where commands and events go.

#[allow(unused_imports)]
use crate::places::lemma_first_place;
#[allow(unused_imports)]
use crate::plugin::host::{
    depends_on, dispatched, hearers, law_only_subscribers_hear_of_an_event,
    law_plugins_come_up_after_what_they_need, of_kind, offer_place, wants, BuildView,
    CapabilityView, DispatchView, Received, RuntimeView,
};
#[allow(unused_imports)]
use crate::plugin::order::depends;
#[allow(unused_imports)]
use crate::plugin::registry::{
    among, distinct, lemma_known, registered, stands_before, CommandId, DescriptorView,
};
#[allow(unused_imports)]
use crate::plugin::resolve::{
    absent, claim_place, claims, command_fault, debug_list, dependency_fault, deps_of, has_command,
    list_fault, listing_fault, names_of, plugin, resolved, unknown_fault,
};
#[allow(unused_imports)]
use crate::text::{blank, lemma_one_precedes, precedes, text_place};
use vstd::prelude::*;

verus! {

/// A list of names that are there, each once and none of them blank.
pub open spec fn well_listed(names: Seq<Seq<char>>) -> bool {
    &&& forall|i: int| 0 <= i < names.len() ==> !blank(#[trigger] names[i])
    &&& names.no_duplicates()
}

/// Every plugin of the list exists, and so does in the list whatever one of them depends on.
pub open spec fn complete(
    plugins: Seq<DescriptorView>,
    namespace: Seq<char>,
    names: Seq<Seq<char>>,
) -> bool {
    &&& forall|i: int| 0 <= i < names.len() ==> among(plugins, namespace, #[trigger] names[i])
    &&& forall|i: int, k: int|
        0 <= i < names.len() && 0 <= k < plugin(
            plugins,
            namespace,
            names[i],
        ).dependencies.len() ==> names.contains(
            #[trigger] plugin(plugins, namespace, names[i]).dependencies[k],
        )
}

/// No command is claimed twice.
pub open spec fn one_owner(claims: Seq<(CommandId, Seq<char>)>) -> bool {
    forall|i: int, j: int|
        0 <= i < j < claims.len() ==> (#[trigger] claims[i]).0 != (#[trigger] claims[j]).0
}

/// A list of plugins is accepted exactly if its names are there, each once, all plugins exist, all
/// that they depend on is listed, and no two have the same command.
pub proof fn law_a_list_is_refused_only_with_a_reason(
    plugins: Seq<DescriptorView>,
    namespace: Seq<char>,
    names: Seq<Seq<char>>,
)
    ensures
        list_fault(plugins, namespace, names) is None <==> well_listed(names) && complete(
            plugins,
            namespace,
            names,
        ) && one_owner(claims(plugins, namespace, names)),
{
    lemma_listing(namespace, names);
    lemma_unknown(plugins, namespace, names);
    lemma_dependencies(plugins, namespace, names, names);
    lemma_commands(namespace, claims(plugins, namespace, names));
}

proof fn lemma_listing(namespace: Seq<char>, names: Seq<Seq<char>>)
    ensures
        listing_fault(namespace, names) is None <==> well_listed(names),
    decreases names.len(),
{
    if names.len() > 0 {
        let front = names.drop_last();
        let last = names.last();
        lemma_listing(namespace, front);
        assert(forall|i: int| 0 <= i < front.len() ==> names[i] == front[i]);
        if well_listed(names) {
            if front.contains(last) {
                let i = choose|i: int| 0 <= i < front.len() && front[i] == last;
                assert(names[i] == names[names.len() - 1]);
            }
            assert(!blank(names[names.len() - 1]));
            assert forall|i: int| 0 <= i < front.len() implies !blank(#[trigger] front[i]) by {
                assert(!blank(names[i]));
            }
        }
        if well_listed(front) && !blank(last) && !front.contains(last) {
            assert forall|i: int| 0 <= i < names.len() implies !blank(#[trigger] names[i]) by {
                if i < front.len() {
                    assert(!blank(front[i]));
                }
            }
            assert forall|i: int, j: int|
                0 <= i < names.len() && 0 <= j < names.len() && i != j implies names[i]
                != names[j] by {
                if i < front.len() && j < front.len() {
                    assert(front[i] != front[j]);
                } else if i < front.len() {
                    assert(front[i] != last);
                } else {
                    assert(front[j] != last);
                }
            }
        }
    }
}

proof fn lemma_unknown(
    plugins: Seq<DescriptorView>,
    namespace: Seq<char>,
    names: Seq<Seq<char>>,
)
    ensures
        unknown_fault(plugins, namespace, names) is None <==> forall|i: int|
            0 <= i < names.len() ==> among(plugins, namespace, #[trigger] names[i]),
    decreases names.len(),
{
    if names.len() > 0 {
        let front = names.drop_last();
        lemma_unknown(plugins, namespace, front);
        lemma_known(plugins, namespace, names.last());
        assert(forall|i: int| 0 <= i < front.len() ==> #[trigger] names[i] == front[i]);
        if forall|i: int| 0 <= i < names.len() ==> among(plugins, namespace, #[trigger] names[i]) {
            assert(among(plugins, namespace, names[names.len() - 1]));
            assert forall|i: int| 0 <= i < front.len() implies among(
                plugins,
                namespace,
                #[trigger] front[i],
            ) by {
                assert(among(plugins, namespace, names[i]));
            }
        }
        if (forall|i: int| 0 <= i < front.len() ==> among(plugins, namespace, #[trigger] front[i]))
            && among(plugins, namespace, names.last()) {
            assert forall|i: int| 0 <= i < names.len() implies among(
                plugins,
                namespace,
                #[trigger] names[i],
            ) by {
                if i < front.len() {
                    assert(among(plugins, namespace, front[i]));
                }
            }
        }
    }
}

proof fn lemma_absent(wanted: Seq<Seq<char>>, names: Seq<Seq<char>>)
    ensures
        absent(wanted, names) is None <==> forall|k: int|
            0 <= k < wanted.len() ==> names.contains(#[trigger] wanted[k]),
    decreases wanted.len(),
{
    if wanted.len() > 0 {
        let front = wanted.drop_last();
        lemma_absent(front, names);
        assert(forall|k: int| 0 <= k < front.len() ==> #[trigger] wanted[k] == front[k]);
        if forall|k: int| 0 <= k < wanted.len() ==> names.contains(#[trigger] wanted[k]) {
            assert(names.contains(wanted[wanted.len() - 1]));
            assert forall|k: int| 0 <= k < front.len() implies names.contains(
                #[trigger] front[k],
            ) by {
                assert(names.contains(wanted[k]));
            }
        }
        if (forall|k: int| 0 <= k < front.len() ==> names.contains(#[trigger] front[k]))
            && names.contains(wanted.last()) {
            assert forall|k: int| 0 <= k < wanted.len() implies names.contains(
                #[trigger] wanted[k],
            ) by {
                if k < front.len() {
                    assert(names.contains(front[k]));
                }
            }
        }
    }
}

/// All that this plugin depends on is listed.
spec fn provided(
    plugins: Seq<DescriptorView>,
    namespace: Seq<char>,
    names: Seq<Seq<char>>,
    name: Seq<char>,
) -> bool {
    absent(plugin(plugins, namespace, name).dependencies, names) is None
}

proof fn lemma_dependencies(
    plugins: Seq<DescriptorView>,
    namespace: Seq<char>,
    names: Seq<Seq<char>>,
    part: Seq<Seq<char>>,
)
    ensures
        dependency_fault(plugins, namespace, names, part) is None <==> forall|i: int|
            0 <= i < part.len() ==> provided(plugins, namespace, names, #[trigger] part[i]),
        dependency_fault(plugins, namespace, names, part) is None <==> forall|i: int, k: int|
            0 <= i < part.len() && 0 <= k < plugin(
                plugins,
                namespace,
                part[i],
            ).dependencies.len() ==> names.contains(
                #[trigger] plugin(plugins, namespace, part[i]).dependencies[k],
            ),
    decreases part.len(),
{
    if part.len() > 0 {
        let front = part.drop_last();
        lemma_dependencies(plugins, namespace, names, front);
        assert(forall|i: int| 0 <= i < front.len() ==> #[trigger] part[i] == front[i]);
        assert(part[part.len() - 1] == part.last());
    }
    let all = forall|i: int|
        0 <= i < part.len() ==> provided(plugins, namespace, names, #[trigger] part[i]);
    if dependency_fault(plugins, namespace, names, part) is None {
        assert forall|i: int| 0 <= i < part.len() implies provided(
            plugins,
            namespace,
            names,
            #[trigger] part[i],
        ) by {
            if i < part.len() - 1 {
                assert(provided(plugins, namespace, names, part.drop_last()[i]));
            }
        }
    }
    if all && part.len() > 0 {
        assert forall|i: int| 0 <= i < part.len() - 1 implies provided(
            plugins,
            namespace,
            names,
            #[trigger] part.drop_last()[i],
        ) by {
            assert(provided(plugins, namespace, names, part[i]));
        }
        assert(provided(plugins, namespace, names, part[part.len() - 1]));
    }
    assert forall|i: int| 0 <= i < part.len() implies (provided(
        plugins,
        namespace,
        names,
        #[trigger] part[i],
    ) <==> forall|k: int|
        0 <= k < plugin(plugins, namespace, part[i]).dependencies.len() ==> names.contains(
            #[trigger] plugin(plugins, namespace, part[i]).dependencies[k],
        )) by {
        lemma_absent(plugin(plugins, namespace, part[i]).dependencies, names);
    }
}

proof fn lemma_commands(namespace: Seq<char>, list: Seq<(CommandId, Seq<char>)>)
    ensures
        command_fault(namespace, list) is None <==> one_owner(list),
    decreases list.len(),
{
    if list.len() > 0 {
        let front = list.drop_last();
        lemma_commands(namespace, front);
        lemma_first_place(front, has_command(list.last().0));
        let place = claim_place(front, list.last().0);
        assert(forall|i: int| 0 <= i < front.len() ==> #[trigger] list[i] == front[i]);
        if one_owner(list) {
            assert forall|i: int, j: int| 0 <= i < j < front.len() implies (
            #[trigger] front[i]).0 != (#[trigger] front[j]).0 by {
                assert(list[i].0 != list[j].0);
            }
            if place < front.len() {
                assert(has_command(list.last().0)(front[place]));
                assert(list[place].0 != list[list.len() - 1].0);
            }
        }
        if one_owner(front) && place >= front.len() {
            assert forall|i: int, j: int| 0 <= i < j < list.len() implies (#[trigger] list[i]).0
                != (#[trigger] list[j]).0 by {
                if j < front.len() {
                    assert(front[i].0 != front[j].0);
                } else {
                    assert(!has_command(list.last().0)(front[i]));
                }
            }
        }
    }
}

/// Whoever claims a command is a plugin of the list that has it, and every plugin of the list
/// claims every command it has.
pub proof fn law_commands_belong_to_their_plugins(
    plugins: Seq<DescriptorView>,
    namespace: Seq<char>,
    names: Seq<Seq<char>>,
    command: CommandId,
    name: Seq<char>,
)
    ensures
        claims(plugins, namespace, names).contains((command, name)) <==> names.contains(name)
            && plugin(plugins, namespace, name).commands.contains(command),
    decreases names.len(),
{
    if names.len() > 0 {
        let front = names.drop_last();
        let last = names.last();
        law_commands_belong_to_their_plugins(plugins, namespace, front, command, name);
        let before = claims(plugins, namespace, front);
        let own = plugin(plugins, namespace, last).commands.map_values(|c: CommandId| (c, last));
        let all = claims(plugins, namespace, names);
        assert(all == before + own);
        let commands = plugin(plugins, namespace, last).commands;
        if all.contains((command, name)) {
            let i = choose|i: int| 0 <= i < all.len() && all[i] == (command, name);
            if i < before.len() {
                assert(before[i] == (command, name));
                let k = choose|k: int| 0 <= k < front.len() && front[k] == name;
                assert(names[k] == name);
            } else {
                assert(own[i - before.len()] == (command, name));
                assert(commands[i - before.len()] == command);
                assert(names[names.len() - 1] == name);
            }
        }
        if names.contains(name) && plugin(plugins, namespace, name).commands.contains(command) {
            let k = choose|k: int| 0 <= k < names.len() && names[k] == name;
            if k < front.len() {
                assert(front[k] == name);
                let i = choose|i: int| 0 <= i < before.len() && before[i] == (command, name);
                assert(all[i] == (command, name));
            } else {
                let i = choose|i: int| 0 <= i < commands.len() && commands[i] == command;
                assert(own[i] == (command, name));
                assert(all[before.len() + i] == (command, name));
            }
        }
    }
}

/// A command goes to the one plugin that has it, and a command that no plugin has is refused.
pub proof fn law_a_command_goes_to_the_plugin_that_has_it(
    plugins: Seq<DescriptorView>,
    namespace: Seq<char>,
    names: Seq<Seq<char>>,
    runtime: RuntimeView,
    command: CommandId,
    name: Seq<char>,
)
    requires
        list_fault(plugins, namespace, names) is None,
        runtime.routes == claims(plugins, namespace, names),
    ensures
        names.contains(name) && plugin(plugins, namespace, name).commands.contains(command)
            ==> dispatched(namespace, Some(runtime), Received::Command(command))
            == DispatchView::Handle(name),
        (forall|k: int|
            0 <= k < names.len() ==> !plugin(
                plugins,
                namespace,
                #[trigger] names[k],
            ).commands.contains(command)) ==> dispatched(
            namespace,
            Some(runtime),
            Received::Command(command),
        ) is Refuse,
        dispatched(namespace, None, Received::Command(command)) is Refuse,
{
    let list = claims(plugins, namespace, names);
    law_a_list_is_refused_only_with_a_reason(plugins, namespace, names);
    law_commands_belong_to_their_plugins(plugins, namespace, names, command, name);
    lemma_first_place(list, has_command(command));
    let place = claim_place(list, command);
    if names.contains(name) && plugin(plugins, namespace, name).commands.contains(command) {
        let i = choose|i: int| 0 <= i < list.len() && list[i] == (command, name);
        assert(has_command(command)(list[i]));
        if place != i {
            assert(has_command(command)(list[place]));
            if place < i {
                assert(list[place].0 != list[i].0);
            } else {
                assert(!has_command(command)(list[i]));
            }
        }
    }
    if forall|k: int|
        0 <= k < names.len() ==> !plugin(plugins, namespace, #[trigger] names[k]).commands.contains(
            command,
        ) {
        if place < list.len() {
            assert(has_command(command)(list[place]));
            let owner = list[place].1;
            assert(list[place] == (command, owner));
            law_commands_belong_to_their_plugins(plugins, namespace, names, command, owner);
            let k = choose|k: int| 0 <= k < names.len() && names[k] == owner;
            assert(!plugin(plugins, namespace, names[k]).commands.contains(command));
        }
    }
}

/// A plugin comes up behind every plugin that it names as one it depends on.
pub proof fn law_what_a_plugin_names_comes_up_first(
    plugins: Seq<DescriptorView>,
    namespace: Seq<char>,
    names: Seq<Seq<char>>,
    at: int,
    k: int,
)
    requires
        resolved(plugins, namespace, names) is Ok,
        0 <= at < resolved(plugins, namespace, names)->Ok_0.len(),
        0 <= k < plugin(
            plugins,
            namespace,
            names[resolved(plugins, namespace, names)->Ok_0[at]],
        ).dependencies.len(),
    ensures
        exists|earlier: int|
            0 <= earlier < at && names[#[trigger] resolved(plugins, namespace, names)->Ok_0[earlier]]
                == plugin(
                plugins,
                namespace,
                names[resolved(plugins, namespace, names)->Ok_0[at]],
            ).dependencies[k],
{
    let order = resolved(plugins, namespace, names)->Ok_0;
    let deps = deps_of(plugins, namespace, names);
    law_plugins_come_up_after_what_they_need(plugins, namespace, names);
    law_a_list_is_refused_only_with_a_reason(plugins, namespace, names);
    let item = order[at];
    let wanted = plugin(plugins, namespace, names[item]).dependencies;
    assert(names.contains(wanted[k]));
    let on = text_place(names, wanted[k]);
    assert(deps[item][k] == on);
    assert(depends(deps, item, on));
    lemma_text_place(names, wanted[k]);
    assert(order.take(at).contains(on));
    let earlier = choose|e: int| 0 <= e < order.take(at).len() && order.take(at)[e] == on;
    assert(order[earlier] == on);
}

proof fn lemma_text_place(list: Seq<Seq<char>>, text: Seq<char>)
    ensures
        0 <= text_place(list, text) <= list.len(),
        list.contains(text) ==> text_place(list, text) < list.len() && list[text_place(list, text)]
            == text,
    decreases list.len(),
{
    if list.len() > 0 {
        let front = list.drop_last();
        lemma_text_place(front, text);
        if list.contains(text) && !front.contains(text) {
            let i = choose|i: int| 0 <= i < list.len() && list[i] == text;
            if i < front.len() {
                assert(front[i] == text);
            }
            lemma_missing(front, text);
        }
    }
}

proof fn lemma_missing(list: Seq<Seq<char>>, text: Seq<char>)
    requires
        !list.contains(text),
    ensures
        text_place(list, text) == list.len(),
    decreases list.len(),
{
    if list.len() > 0 {
        assert(list[list.len() - 1] != text);
        assert forall|i: int| 0 <= i < list.len() - 1 implies list.drop_last()[i] != text by {
            assert(list[i] != text);
        }
        lemma_missing(list.drop_last(), text);
    }
}

/// Who depends on whom is what the plugins of the list say of themselves.
pub proof fn law_plugins_depend_on_what_they_name(
    plugins: Seq<DescriptorView>,
    namespace: Seq<char>,
    names: Seq<Seq<char>>,
    name: Seq<char>,
    other: Seq<char>,
)
    ensures
        depends_on(wants(plugins, namespace, names), name, other) <==> names.contains(name)
            && plugin(plugins, namespace, name).dependencies.contains(other),
{
    let all = wants(plugins, namespace, names);
    if depends_on(all, name, other) {
        let i = choose|i: int|
            0 <= i < all.len() && (#[trigger] all[i]).0 == name && all[i].1.contains(other);
        assert(names[i] == name);
    }
    if names.contains(name) && plugin(plugins, namespace, name).dependencies.contains(other) {
        let i = choose|i: int| 0 <= i < names.len() && names[i] == name;
        assert(all[i].0 == name && all[i].1.contains(other));
    }
}

/// Plugins are taken in one after the other as they are, or none at all: where two of a namespace
/// have one name, or a name is missing, that is an error.
pub proof fn law_all_plugins_are_taken_in(plugins: Seq<DescriptorView>)
    ensures
        registered(plugins) matches Ok(taken) ==> taken == plugins,
        registered(plugins) is Ok <==> distinct(plugins) && forall|i: int|
            0 <= i < plugins.len() ==> !blank((#[trigger] plugins[i]).namespace) && !blank(
                plugins[i].name,
            ),
    decreases plugins.len(),
{
    if plugins.len() > 0 {
        let front = plugins.drop_last();
        let last = plugins.last();
        law_all_plugins_are_taken_in(front);
        lemma_known(front, last.namespace, last.name);
        assert(front.push(last) =~= plugins);
        assert(forall|i: int| 0 <= i < front.len() ==> #[trigger] plugins[i] == front[i]);
        if distinct(plugins) {
            assert forall|i: int, j: int| 0 <= i < j < front.len() implies (
            #[trigger] front[i]).namespace != (#[trigger] front[j]).namespace || front[i].name
                != front[j].name by {
                assert(plugins[i].namespace != plugins[j].namespace || plugins[i].name
                    != plugins[j].name);
            }
            if among(front, last.namespace, last.name) {
                let i = choose|i: int|
                    0 <= i < front.len() && (#[trigger] front[i]).namespace == last.namespace
                        && front[i].name == last.name;
                assert(plugins[i].namespace != plugins[plugins.len() - 1].namespace
                    || plugins[i].name != plugins[plugins.len() - 1].name);
            }
        }
        if distinct(front) && !among(front, last.namespace, last.name) {
            assert forall|i: int, j: int| 0 <= i < j < plugins.len() implies (
            #[trigger] plugins[i]).namespace != (#[trigger] plugins[j]).namespace
                || plugins[i].name != plugins[j].name by {
                if j < front.len() {
                    assert(front[i].namespace != front[j].namespace || front[i].name
                        != front[j].name);
                } else {
                    assert(front[i].namespace != last.namespace || front[i].name != last.name);
                }
            }
        }
        if forall|i: int|
            0 <= i < plugins.len() ==> !blank((#[trigger] plugins[i]).namespace) && !blank(
                plugins[i].name,
            ) {
            assert(!blank(plugins[plugins.len() - 1].namespace));
            assert forall|i: int| 0 <= i < front.len() implies !blank(
                (#[trigger] front[i]).namespace,
            ) && !blank(front[i].name) by {
                assert(!blank(plugins[i].namespace));
            }
        }
    }
}

/// Plugins stand by their namespaces first, then by their names, then by where they are written,
/// and of two that differ in these one stands first.
pub proof fn law_plugins_stand_by_namespace_and_name(first: DescriptorView, second: DescriptorView)
    ensures
        precedes(first.namespace, second.namespace) ==> stands_before(first, second),
        first.namespace == second.namespace && precedes(first.name, second.name) ==> stands_before(
            first,
            second,
        ),
        stands_before(first, second) ==> !stands_before(second, first),
        stands_before(first, second) || stands_before(second, first) || (first.namespace
            == second.namespace && first.name == second.name && first.source == second.source),
{
    lemma_one_precedes(first.namespace, second.namespace);
    lemma_one_precedes(first.name, second.name);
    lemma_one_precedes(first.source, second.source);
}

/// Which of two texts stands first is settled where they first differ; a text stands behind its own
/// beginning.
pub proof fn law_texts_stand_by_their_first_difference(
    common: Seq<char>,
    first: Seq<char>,
    second: Seq<char>,
)
    ensures
        precedes(common + first, common + second) == precedes(first, second),
        first.len() > 0 && second.len() > 0 && first[0] < second[0] ==> precedes(
            common + first,
            common + second,
        ),
        second.len() > 0 ==> precedes(common, common + second),
        !precedes(common + first, common),
    decreases common.len(),
{
    if common.len() > 0 {
        let rest = common.skip(1);
        law_texts_stand_by_their_first_difference(rest, first, second);
        assert((common + first).skip(1) =~= rest + first);
        assert((common + second).skip(1) =~= rest + second);
    } else {
        assert(common + first =~= first);
        assert(common + second =~= second);
    }
}

/// What a plugin offers it gets itself, and so does a plugin that depends on it; nobody else can
/// offer the same type after it.
pub proof fn law_an_offer_is_found(
    runtime: RuntimeView,
    state: BuildView,
    provider: Seq<char>,
    kind: u64,
    kind_name: Seq<char>,
    other: Seq<char>,
    asked: Seq<char>,
)
    requires
        state.offer_fault(provider, kind, kind_name) is None,
        runtime.state == state.with_offer(provider, kind, kind_name),
    ensures
        ({
            let all = runtime.state.capabilities;
            let mine = runtime.required(provider, kind, asked);
            let theirs = runtime.required(other, kind, asked);
            &&& mine matches Ok(place) && all[place] == (CapabilityView {
                kind,
                kind_name,
                provider,
            })
            &&& depends_on(runtime.enabled, other, provider) ==> theirs == mine
            &&& !depends_on(runtime.enabled, other, provider) && other != provider
                ==> theirs is Err
            &&& runtime.state.offer_fault(other, kind, asked) is Some
            &&& runtime.state.subscriptions == state.subscriptions
        }),
{
    let before = state.capabilities;
    let all = runtime.state.capabilities;
    lemma_first_place(before, of_kind(kind));
    lemma_first_place(all, of_kind(kind));
    let place = offer_place(all, kind);
    assert(all.drop_last() =~= before);
    assert(of_kind(kind)(all.last()));
    assert(place == before.len());
}

/// What was offered before stays as it is when more is offered.
pub proof fn law_offers_do_not_displace_one_another(
    state: BuildView,
    provider: Seq<char>,
    kind: u64,
    kind_name: Seq<char>,
    earlier: u64,
)
    requires
        offer_place(state.capabilities, earlier) < state.capabilities.len(),
    ensures
        ({
            let after = state.with_offer(provider, kind, kind_name).capabilities;
            &&& offer_place(after, earlier) == offer_place(state.capabilities, earlier)
            &&& offer_place(after, earlier) < after.len()
            &&& after[offer_place(after, earlier)] == state.capabilities[offer_place(
                state.capabilities,
                earlier,
            )]
        }),
{
    let after = state.with_offer(provider, kind, kind_name).capabilities;
    lemma_first_place(state.capabilities, of_kind(earlier));
    assert(after.drop_last() =~= state.capabilities);
}

/// Whoever asks to hear of an event hears of it, behind those who asked before, and of no other
/// event on that account; a second request of the same plugin is refused.
pub proof fn law_a_subscriber_hears_of_its_event(
    state: BuildView,
    plugin: Seq<char>,
    event: u64,
    other: u64,
    event_name: Seq<char>,
)
    ensures
        ({
            let after = state.with_hearer(plugin, event);
            &&& hearers(after.subscriptions, event) == hearers(state.subscriptions, event).push(
                state.subscriptions.len() as int,
            )
            &&& after.subscriptions[state.subscriptions.len() as int].0 == plugin
            &&& other != event ==> hearers(after.subscriptions, other) == hearers(
                state.subscriptions,
                other,
            )
            &&& after.subscribe_fault(plugin, event, event_name) is Some
            &&& after.capabilities == state.capabilities
        }),
{
    let after = state.with_hearer(plugin, event).subscriptions;
    assert(after.drop_last() =~= state.subscriptions);
    assert(after[state.subscriptions.len() as int] == (plugin, event));
}

/// An event is told to those who asked to hear of it, and a message that is neither an event nor a
/// command to nobody.
pub proof fn law_an_event_is_told_to_its_hearers(
    namespace: Seq<char>,
    runtime: RuntimeView,
    event: u64,
    i: int,
)
    requires
        0 <= i < runtime.state.subscriptions.len(),
    ensures
        dispatched(namespace, Some(runtime), Received::Event(event)) matches DispatchView::Publish(
            places,
        ) && (places.contains(i) <==> runtime.state.subscriptions[i].1 == event),
        dispatched(namespace, Some(runtime), Received::Other) is Refuse,
        dispatched(namespace, None, Received::Event(event)) is Refuse,
{
    law_only_subscribers_hear_of_an_event(runtime.state.subscriptions, event);
    assert(runtime.state.subscriptions[i] == runtime.state.subscriptions[i]);
}

/// What nobody offers nobody gets.
pub proof fn law_what_is_not_offered_is_not_got(
    runtime: RuntimeView,
    name: Seq<char>,
    kind: u64,
    kind_name: Seq<char>,
)
    requires
        forall|i: int|
            0 <= i < runtime.state.capabilities.len() ==> (
            #[trigger] runtime.state.capabilities[i]).kind != kind,
    ensures
        runtime.required(name, kind, kind_name) is Err,
        runtime.state.offer_fault(name, kind, kind_name) is None,
{
    let all = runtime.state.capabilities;
    lemma_first_place(all, of_kind(kind));
    let place = offer_place(all, kind);
    if place < all.len() {
        assert(of_kind(kind)(all[place]));
        assert(all[place].kind != kind);
    }
}

/// Whether a text holds a name.
pub open spec fn mentions(text: Seq<char>, name: Seq<char>) -> bool {
    exists|i: int|
        0 <= i && i + name.len() <= text.len() && #[trigger] text.subrange(i, i + name.len())
            == name
}

proof fn lemma_mentions(before: Seq<char>, name: Seq<char>, after: Seq<char>)
    ensures
        mentions(before + name + after, name),
{
    let text = before + name + after;
    let start = before.len() as int;
    assert(text.subrange(start, start + name.len()) =~= name);
}

/// What is said against a list names the plugin that is at fault: the first that is listed twice,
/// that does not exist, or that depends on one that is not listed.
pub proof fn law_a_refusal_names_the_plugin_at_fault(
    plugins: Seq<DescriptorView>,
    namespace: Seq<char>,
    front: Seq<Seq<char>>,
    names: Seq<Seq<char>>,
    bad: Seq<char>,
)
    ensures
        listing_fault(namespace, front) is None && !blank(bad) && front.contains(bad) ==> (
        listing_fault(namespace, front.push(bad)) matches Some(text) && mentions(text, bad)),
        unknown_fault(plugins, namespace, front) is None && !among(plugins, namespace, bad) ==> (
        unknown_fault(plugins, namespace, front.push(bad)) matches Some(text) && mentions(
            text,
            bad,
        )),
        dependency_fault(plugins, namespace, names, front) is None && absent(
            plugin(plugins, namespace, bad).dependencies,
            names,
        ) is Some ==> (dependency_fault(plugins, namespace, names, front.push(bad)) matches Some(
            text,
        ) && mentions(text, bad)),
{
    assert(front.push(bad).drop_last() =~= front);
    lemma_known(plugins, namespace, bad);
    let start = "namespace `"@ + namespace + "` 的插件 `"@;
    lemma_mentions(start, bad, "` 在配置中出现多次"@);
    let rest = "`；已注册："@ + debug_list(names_of(plugins, namespace));
    let unknown = "namespace `"@ + namespace + "` 未注册插件 `"@;
    lemma_mentions(unknown, bad, rest);
    assert(unknown + bad + "`；已注册："@ + debug_list(names_of(plugins, namespace)) =~= unknown + bad
        + rest);
    if let Some(dependency) = absent(plugin(plugins, namespace, bad).dependencies, names) {
        let rest = "` 依赖未启用的插件 `"@ + dependency + "`"@;
        lemma_mentions(start, bad, rest);
        assert(start + bad + "` 依赖未启用的插件 `"@ + dependency + "`"@ =~= start + bad + rest);
    }
}

} // verus!
