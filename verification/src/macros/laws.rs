//! What holds of what the attributes accept and of what they make of it.

#[allow(unused_imports)]
use crate::macros::block::{
    head_fault, hook_fault, hooks_of, lemma_parts_len, parts_of, Block,
};
#[allow(unused_imports)]
use crate::macros::cluster::{
    answer_of, number_of, remote_of, MessageArgs, Remote, Returned, TypeArg,
};
#[allow(unused_imports)]
use crate::macros::dispatch::{
    dispatch_fault, groups_of, is_beside, is_exposed, is_leader, is_variant_leader, is_whole,
    law_methods_do_not_clash, leads, selected,
};
#[allow(unused_imports)]
use crate::macros::plugin::{block_parts, plugin_parts, EntryView, PluginArgs, PluginMethod};
#[allow(unused_imports)]
use crate::macros::service::{
    arg_of, debug_list, first_forbidden, forbidden, hook_named, hook_of, json_error, listed,
    part_of, route_of, self_fault, wrong_self, Arg, DebugItem, Flavor, Hook, Method, MsgExpr,
    PartView, Route, ServiceArgs,
};
#[allow(unused_imports)]
use crate::macros::shape::{replies, typed_count, typed_place, FaultView, Input, TypeShape};
#[allow(unused_imports)]
use crate::macros::signal::{callback_fault, is_fatal, signal_of, Callback};
#[allow(unused_imports)]
use crate::signal::signals::Signal;
#[allow(unused_imports)]
use crate::text::blank;
use vstd::prelude::*;

verus! {

/// A function that other nodes call is accepted exactly if it is an `async fn` without type
/// parameters that takes a context and a request and gives back a `Result` whose error is a
/// `String`.
pub proof fn law_a_remote_function_has_one_form(remote: Remote)
    ensures
        remote_of(remote) is Ok <==> {
            &&& remote.is_async
            &&& !remote.has_generics
            &&& remote.inputs@.len() == 2
            &&& remote.inputs@[0] is Typed
            &&& remote.inputs@[1] is Typed
            &&& answer_of(remote.output) is Ok
        },
        remote_of(remote) is Ok ==> remote_of(remote) == answer_of(remote.output),
{
}

/// A caller waits for an answer unless it is `()`. The error is always a `String`.
pub proof fn law_only_a_unit_is_no_answer(last: String, args: Vec<TypeArg>)
    ensures
        ({
            let answer = answer_of(Returned::Path { last, args: Some(args) });
            &&& answer is Ok <==> last@ == "Result"@ && args@.len() == 2 && !(args@[0] is Other)
                && (args@[1] is Path && args@[1]->Path_0@ == "String"@)
            &&& answer matches Ok(nothing) ==> (nothing <==> args@[0] is Unit)
        }),
        answer_of(Returned::Nothing) is Err,
        answer_of(Returned::Other) is Err,
        answer_of(Returned::Path { last, args: None }) is Err,
{
}

/// A message has a number, and it is that number; 0 is none.
pub proof fn law_a_message_has_its_number(number: u32)
    ensures
        number > 0 ==> number_of(Some(number)) == Ok::<u32, FaultView>(number),
        number_of(Some(0)) is Err,
        number_of(None) is Err,
{
}

/// No argument of a message is taken twice, the two arguments can come in either order, and no
/// other argument is taken.
pub proof fn law_arguments_of_a_message_come_once(args: MessageArgs, place: usize, key: Seq<char>)
    ensures
        args.after(place, key) matches Ok((arg, next)) ==> {
            &&& next.after(place, key) is Err
            &&& arg is Number ==> key == "type_id"@ && !args.has_number && next.has_number
                && next.has_crate == args.has_crate
            &&& arg is Crate ==> key == "crate"@ && !args.has_crate && next.has_crate
                && next.has_number == args.has_number
        },
        key != "type_id"@ && key != "crate"@ ==> args.after(place, key) is Err,
        key == "type_id"@ && !args.has_number ==> args.after(place, key) is Ok,
        key == "crate"@ && key != "type_id"@ && !args.has_crate ==> args.after(place, key) is Ok,
{
}

/// A service is named once and made by one function; no other argument is taken.
pub proof fn law_arguments_of_a_service_come_once(args: ServiceArgs, place: usize, key: Seq<char>)
    ensures
        args.after(place, key) matches Ok((arg, next)) ==> {
            &&& arg is Name ==> key == "name"@ && !args.has_name && next.has_name
                && next.has_factory == args.has_factory && next.after(place, key) is Err
            &&& arg is Factory ==> key == "factory"@ && !args.has_factory && next.has_factory
                && next.has_name == args.has_name && next.after(place, key) is Err
            &&& arg is Crate ==> key == "crate"@ && next == args
        },
        key != "crate"@ && key != "name"@ && key != "factory"@ ==> args.after(place, key) is Err,
        key == "crate"@ ==> args.after(place, key) is Ok,
{
}

/// A plugin has a namespace, a name and a function that makes it, and lacks nothing then.
pub proof fn law_a_plugin_lacks_what_was_not_given(args: PluginArgs, place: usize, key: Seq<char>)
    ensures
        args.missing() is None <==> args.has_namespace && args.has_name && args.has_factory,
        args.after(place, key) matches Ok((arg, next)) ==> {
            &&& next.has_namespace == (args.has_namespace || arg is Namespace)
            &&& next.has_name == (args.has_name || arg is Name)
            &&& next.has_factory == (args.has_factory || arg is Factory)
            &&& next.debug_all == (args.debug_all || arg is Debug)
            &&& arg is Namespace ==> key == "namespace"@
            &&& arg is Name ==> key == "name"@
            &&& arg is Factory ==> key == "factory"@
            &&& arg is Dependencies ==> key == "dependencies"@
            &&& arg is Debug ==> key == "debug"@ && !args.debug_all
        },
{
}

/// What is selected is just what is below the bound and meets the condition, each once and in
/// order.
pub proof fn law_a_selection_is_complete(count: nat, holds: spec_fn(int) -> bool)
    ensures
        forall|k: int| #[trigger]
            selected(count, holds).contains(k) <==> 0 <= k < count && holds(k),
        forall|i: int, j: int|
            0 <= i < j < selected(count, holds).len() ==> #[trigger] selected(count, holds)[i]
                < #[trigger] selected(count, holds)[j],
    decreases count,
{
    let all = selected(count, holds);
    if count > 0 {
        let less = (count - 1) as nat;
        let before = selected(less, holds);
        law_a_selection_is_complete(less, holds);
        assert forall|i: int| 0 <= i < before.len() implies 0 <= #[trigger] before[i] < less by {
            assert(before.contains(before[i]));
        }
        assert forall|k: int| #[trigger]
            all.contains(k) <==> 0 <= k < count && holds(k) by {
            if all.contains(k) {
                let i = choose|i: int| 0 <= i < all.len() && all[i] == k;
                if i < before.len() {
                    assert(before[i] == k);
                    assert(before.contains(k));
                }
            }
            if 0 <= k < count && holds(k) {
                if k < less {
                    assert(before.contains(k));
                    let i = choose|i: int| 0 <= i < before.len() && before[i] == k;
                    assert(all[i] == k);
                } else {
                    assert(all[before.len() as int] == k);
                }
            }
        }
        assert forall|i: int, j: int| 0 <= i < j < all.len() implies #[trigger] all[i]
            < #[trigger] all[j] by {
            if j < before.len() {
                assert(before[i] < before[j]);
            } else {
                assert(before[i] < less);
            }
        }
    }
}

/// Every method is called for its command: one that handles a command as a whole by itself, and one
/// that handles a variant among those of its command. There is one entry for each command, and no
/// other.
pub proof fn law_every_method_is_called_for_its_command(entries: Seq<EntryView>, k: int)
    requires
        0 <= k < entries.len(),
        dispatch_fault(entries) is None,
    ensures
        selected(entries.len(), is_whole(entries)).contains(k) <==> entries[k].variant is None,
        selected(entries.len(), is_exposed(entries)).contains(k) <==> entries[k].debug_name
            is Some,
        exists|first: int|
            0 <= first <= k && (#[trigger] entries[first]).command == entries[k].command && selected(
                entries.len(),
                is_leader(entries),
            ).contains(first),
        forall|i: int, j: int|
            selected(entries.len(), is_leader(entries)).contains(i) && selected(
                entries.len(),
                is_leader(entries),
            ).contains(j) && i != j ==> (#[trigger] entries[i]).command != (
            #[trigger] entries[j]).command,
{
    law_a_selection_is_complete(entries.len(), is_whole(entries));
    law_a_selection_is_complete(entries.len(), is_exposed(entries));
    law_a_selection_is_complete(entries.len(), is_leader(entries));
    assert(is_whole(entries)(k) <==> entries[k].variant is None);
    assert(is_exposed(entries)(k) <==> entries[k].debug_name is Some);
    let first = lemma_someone_leads(entries, k);
    assert(is_leader(entries)(first));
    assert forall|i: int, j: int|
        selected(entries.len(), is_leader(entries)).contains(i) && selected(
            entries.len(),
            is_leader(entries),
        ).contains(j) && i != j implies (#[trigger] entries[i]).command != (
    #[trigger] entries[j]).command by {
        assert(is_leader(entries)(i) && is_leader(entries)(j));
        if i < j {
            assert(leads(entries, j));
        } else {
            assert(leads(entries, i));
        }
    }
}

/// Methods that handle variants of one command stand together in one group, in order, and methods
/// for different commands do not.
pub proof fn law_variants_of_a_command_stand_together(entries: Seq<EntryView>, k: int)
    requires
        0 <= k < entries.len(),
        dispatch_fault(entries) is None,
        entries[k].variant is Some,
    ensures
        exists|g: int|
            0 <= g < groups_of(entries).len() && (#[trigger] groups_of(entries)[g]).contains(k),
        forall|g: int, other: int|
            0 <= g < groups_of(entries).len() && groups_of(entries)[g].contains(k)
                && 0 <= other < entries.len() ==> (#[trigger] groups_of(entries)[g].contains(other)
                <==> entries[other].variant is Some && entries[other].command
                == entries[k].command),
{
    let leaders = selected(entries.len(), is_variant_leader(entries));
    let groups = groups_of(entries);
    law_a_selection_is_complete(entries.len(), is_variant_leader(entries));
    let first = lemma_someone_leads(entries, k);
    assert(entries[first].variant is Some) by {
        if first != k {
            law_methods_do_not_clash(entries, first, k);
        }
    }
    assert(is_variant_leader(entries)(first));
    assert(leaders.contains(first));
    let g = choose|g: int| 0 <= g < leaders.len() && leaders[g] == first;
    law_a_selection_is_complete(entries.len(), is_beside(entries, first));
    assert(is_beside(entries, first)(k));
    assert(groups[g] == selected(entries.len(), is_beside(entries, first)));
    assert(groups[g].contains(k));
    assert forall|g: int, other: int|
        0 <= g < groups.len() && groups[g].contains(k) && 0 <= other < entries.len() implies (
    #[trigger] groups[g].contains(other) <==> entries[other].variant is Some
        && entries[other].command == entries[k].command) by {
        let leader = leaders[g];
        law_a_selection_is_complete(entries.len(), is_beside(entries, leader));
        assert(groups[g] == selected(entries.len(), is_beside(entries, leader)));
        assert(is_beside(entries, leader)(k));
        assert(is_beside(entries, leader)(other) <==> entries[other].variant is Some
            && entries[other].command == entries[leader].command);
    }
}

proof fn lemma_someone_leads(entries: Seq<EntryView>, k: int) -> (first: int)
    requires
        0 <= k < entries.len(),
    ensures
        0 <= first <= k,
        entries[first].command == entries[k].command,
        leads(entries, first),
    decreases k,
{
    if leads(entries, k) {
        k
    } else {
        let j = choose|j: int| 0 <= j < k && (#[trigger] entries[j]).command == entries[k].command;
        lemma_someone_leads(entries, j)
    }
}

/// A signal that the process does not survive cannot be listened to, and different names stand for
/// different signals.
pub proof fn law_names_stand_for_signals(name: Seq<char>, other: Seq<char>)
    ensures
        is_fatal(name) ==> signal_of(name) is Err,
        signal_of(name) is Ok && signal_of(other) == signal_of(name) ==> name == other,
{
}

/// Every signal that a node knows has a name under which it can be listened to.
pub proof fn law_every_signal_can_be_listened_to(signal: Signal)
    ensures
        exists|name: Seq<char>|
            (#[trigger] signal_of(name)) matches Ok(found) && found == signal,
{
    reveal_strlit("SIGINT");
    reveal_strlit("SIGTERM");
    reveal_strlit("SIGHUP");
    reveal_strlit("SIGQUIT");
    reveal_strlit("SIGUSR1");
    reveal_strlit("SIGUSR2");
    reveal_strlit("SIGSEGV");
    reveal_strlit("SIGABRT");
    reveal_strlit("SIGBUS");
    reveal_strlit("SIGILL");
    reveal_strlit("SIGFPE");
    assert("SIGTERM"@.len() == 7 && "SIGHUP"@.len() == 6 && "SIGINT"@.len() == 6);
    assert("SIGHUP"@[3] == 'H' && "SIGINT"@[3] == 'I' && "SIGINT"@[4] == 'N');
    assert("SIGILL"@[4] == 'L' && "SIGBUS"@[3] == 'B' && "SIGFPE"@[3] == 'F');
    assert("SIGTERM"@[3] == 'T' && "SIGQUIT"@[3] == 'Q' && "SIGUSR1"@[3] == 'U');
    assert("SIGSEGV"@[3] == 'S' && "SIGABRT"@[3] == 'A');
    assert("SIGUSR1"@[6] == '1' && "SIGUSR2"@[6] == '2' && "SIGUSR2"@[3] == 'U');
    let name = match signal {
        Signal::Interrupt => "SIGINT"@,
        Signal::Terminate => "SIGTERM"@,
        Signal::Hangup => "SIGHUP"@,
        Signal::Quit => "SIGQUIT"@,
        Signal::User1 => "SIGUSR1"@,
        Signal::User2 => "SIGUSR2"@,
    };
    assert(signal_of(name) is Ok);
}

/// What is called when a signal comes is an ordinary function that takes a shared reference to the
/// context and gives nothing back; every such function is accepted.
pub proof fn law_a_signal_callback_has_one_form(callback: Callback)
    ensures
        callback_fault(callback) is None <==> {
            &&& !callback.is_async && !callback.is_unsafe && !callback.has_generics
            &&& !callback.has_output
            &&& callback.inputs@.len() == 1
            &&& callback.inputs@[0] matches Input::Typed(shape) && (shape matches TypeShape::Reference {
                mutable,
                last,
            } && !mutable && (last matches Some(last) && last@ == "Ctx"@))
        },
{
}

/// What was accepted of the first methods of a plugin stays as it is, and a method adds one entry
/// if commands are routed to it and none otherwise; the entry says which method it is.
pub proof fn law_a_method_adds_one_entry(
    items: Seq<Option<PluginMethod>>,
    debug_all: bool,
    method: PluginMethod,
)
    requires
        items.len() < usize::MAX,
        plugin_parts(items.push(Some(method)), debug_all) is Ok,
    ensures
        plugin_parts(items, debug_all) is Ok,
        ({
            let before = plugin_parts(items, debug_all)->Ok_0;
            let after = plugin_parts(items.push(Some(method)), debug_all)->Ok_0;
            &&& method.route matches Some(route) ==> {
                &&& after.entries.len() == before.entries.len() + 1
                &&& after.entries.drop_last() == before.entries
                &&& after.entries.last().place == items.len()
                &&& after.entries.last().command == route.command@
                &&& after.entries.last().variant is Some <==> route.variant is Some
                &&& after.entries.last().takes_ctx <==> method.typed >= 1
                &&& after.entries.last().has_arg <==> method.typed == 2
                &&& debug_all ==> after.entries.last().debug_name is Some
                &&& after.has_mount == before.has_mount && after.has_init == before.has_init
                &&& method.is_async && method.routes <= 1
            }
            &&& method.route is None ==> after.entries == before.entries && method.debugs@.len()
                == 0
            &&& method.route is None ==> (after.has_init <==> before.has_init || method.name@
                == "init"@) && (after.has_mount <==> before.has_mount || method.name@ == "mount"@)
        }),
        plugin_parts(items.push(None), debug_all) == plugin_parts(items, debug_all),
{
    assert(items.push(Some(method)).drop_last() =~= items);
    assert(items.push(None).drop_last() =~= items);
    let before = plugin_parts(items, debug_all)->Ok_0;
    let after = plugin_parts(items.push(Some(method)), debug_all)->Ok_0;
    if method.route is Some {
        assert(after.entries.drop_last() =~= before.entries);
    }
}

/// A plugin is made of methods of its own, not of those of a trait.
pub proof fn law_a_trait_is_no_plugin(items: Seq<Option<PluginMethod>>, debug_all: bool)
    ensures
        block_parts(true, items, debug_all) is Err,
        block_parts(false, items, debug_all) == plugin_parts(items, debug_all),
{
}

/// How many parameters there are besides `self` is how many there are that are not `self`, and the
/// place that is found for one is the place of that one.
pub proof fn law_parameters_are_counted_without_self(inputs: Seq<Input>, nth: nat)
    ensures
        typed_count(inputs) <= inputs.len(),
        typed_place(inputs, nth) is Some <==> nth < typed_count(inputs),
        typed_place(inputs, nth) matches Some(place) ==> {
            &&& 0 <= place < inputs.len()
            &&& inputs[place] is Typed
            &&& typed_count(inputs.take(place)) == nth
        },
    decreases inputs.len(),
{
    if inputs.len() > 0 {
        let front = inputs.drop_last();
        law_parameters_are_counted_without_self(front, nth);
        assert(inputs.take(inputs.len() - 1) =~= front);
        if let Some(place) = typed_place(front, nth) {
            assert(inputs.take(place) =~= front.take(place));
            assert(inputs[place] == front[place]);
        }
    }
}

/// A method that messages are handed to has `&self` and no other `self`.
pub proof fn law_a_method_has_a_shared_self(i: usize, inputs: Seq<Input>)
    ensures
        self_fault(i, inputs) is None <==> (exists|k: int|
            0 <= k < inputs.len() && #[trigger] inputs[k] is SharedSelf) && (forall|k: int|
            0 <= k < inputs.len() ==> !(#[trigger] inputs[k] is OtherSelf)),
{
    lemma_wrong_self(inputs);
}

proof fn lemma_wrong_self(inputs: Seq<Input>)
    ensures
        wrong_self(inputs) is None <==> forall|k: int|
            0 <= k < inputs.len() ==> !(#[trigger] inputs[k] is OtherSelf),
    decreases inputs.len(),
{
    if inputs.len() > 0 {
        let front = inputs.drop_last();
        lemma_wrong_self(front);
        assert(forall|k: int| 0 <= k < front.len() ==> #[trigger] inputs[k] == front[k]);
        if wrong_self(inputs) is None {
            assert forall|k: int| 0 <= k < inputs.len() implies !(#[trigger] inputs[k]
                is OtherSelf) by {
                if k < front.len() {
                    assert(!(front[k] is OtherSelf));
                }
            }
        } else if wrong_self(front) is Some {
            let k = choose|k: int| 0 <= k < front.len() && #[trigger] front[k] is OtherSelf;
            assert(inputs[k] is OtherSelf);
        } else {
            assert(inputs[inputs.len() - 1] is OtherSelf);
        }
    }
}

/// A method gets messages exactly if it says which, and then it is no method that the kernel calls;
/// what is sent back, what is shown and what is handed over follow from its form.
pub proof fn law_a_handler_is_as_it_is_written(i: usize, method: Method, flavor: Flavor)
    requires
        part_of(i, method, flavor) is Ok,
    ensures
        part_of(i, method, flavor)->Ok_0 is Handler <==> method.route is Some,
        part_of(i, method, flavor)->Ok_0 is Hook <==> hook_named(method.name@) is Some,
        part_of(i, method, flavor)->Ok_0 matches PartView::Handler(plan) ==> {
            &&& method.is_async
            &&& hook_named(method.name@) is None
            &&& plan.replies <==> replies(method.output)
            &&& plan.takes_ctx <==> typed_count(method.inputs@) >= 1
            &&& plan.arg is Some <==> typed_count(method.inputs@) == 2
            &&& plan.debug_name is Some <==> method.debugs@.len() == 1
            &&& plan.replies ==> plan.arg != Some(Arg::Whole)
            &&& plan.debug_name is Some ==> plan.arg != Some(Arg::Whole) && plan.route is Types
        },
        part_of(i, method, flavor)->Ok_0 matches PartView::Hook(hook) ==> flavor is Exclusive || (
        hook is Init || hook is Dispatch),
        !(part_of(i, method, flavor)->Ok_0 is Handler) ==> method.debugs@.len() == 0,
{
    law_parameters_are_counted_without_self(method.inputs@, 1);
}

/// Replies and errors cannot be sent from the dashboard: a method that handles one is not shown
/// there.
pub proof fn law_replies_are_not_shown(i: usize, method: Method, flavor: Flavor, k: int)
    requires
        part_of(i, method, flavor) matches Ok(PartView::Handler(plan)) && plan.debug_name is Some,
        0 <= k < listed(method.route).len(),
    ensures
        !forbidden(listed(method.route)[k]),
{
    lemma_forbidden(listed(method.route), k);
}

proof fn lemma_forbidden(exprs: Seq<MsgExpr>, k: int)
    requires
        first_forbidden(exprs) is None,
        0 <= k < exprs.len(),
    ensures
        !forbidden(exprs[k]),
    decreases exprs.len(),
{
    if k < exprs.len() - 1 {
        lemma_forbidden(exprs.drop_last(), k);
    }
}

/// A hook that was found is the method of that name in the block, and its form is the one that the
/// kernel calls: what waits is `async`, what runs on a thread of its own is not.
pub proof fn law_a_hook_is_the_method_of_its_name(
    items: Seq<Option<Method>>,
    flavor: Flavor,
    hook: Hook,
    place: usize,
)
    requires
        items.len() <= usize::MAX,
        parts_of(items, flavor) is Ok,
        hooks_of(items, parts_of(items, flavor)->Ok_0) is Ok,
        hooks_of(items, parts_of(items, flavor)->Ok_0)->Ok_0.of(hook) == Some(place),
    ensures
        place < items.len(),
        items[place as int] is Some,
        hook_named(items[place as int]->0.name@) == Some(hook),
        items[place as int]->0.is_async <==> hook is Init || hook is Dispatch,
{
    assert(items =~= items.take(items.len() as int));
    lemma_hooks(items, items, flavor, hook, place);
}

proof fn lemma_hooks(
    all: Seq<Option<Method>>,
    items: Seq<Option<Method>>,
    flavor: Flavor,
    hook: Hook,
    place: usize,
)
    requires
        items.len() <= all.len() <= usize::MAX,
        items == all.take(items.len() as int),
        parts_of(items, flavor) is Ok,
        hooks_of(all, parts_of(items, flavor)->Ok_0) is Ok,
        hooks_of(all, parts_of(items, flavor)->Ok_0)->Ok_0.of(hook) == Some(place),
    ensures
        place < items.len(),
        items[place as int] is Some,
        hook_named(items[place as int]->0.name@) == Some(hook),
        items[place as int]->0.is_async <==> hook is Init || hook is Dispatch,
    decreases items.len(),
{
    lemma_parts_len(items, flavor);
    let parts = parts_of(items, flavor)->Ok_0;
    if items.len() > 0 {
        let front = items.drop_last();
        let before = parts_of(front, flavor)->Ok_0;
        lemma_parts_len(front, flavor);
        assert(parts.drop_last() =~= before);
        assert(front =~= all.take(front.len() as int));
        assert(all[items.len() - 1] == items.last());
        let hooks = hooks_of(all, before)->Ok_0;
        if hooks.of(hook) == Some(place) {
            lemma_hooks(all, front, flavor, hook, place);
            assert(items[place as int] == front[place as int]);
        }
    }
}

/// A block that takes part in a registration by name is of one type and not of a trait.
pub proof fn law_a_named_service_is_of_one_type(block: Block)
    ensures
        head_fault(block) is None ==> !block.has_trait && (block.args.has_name
            ==> !block.has_generics) && (block.args.has_factory ==> block.args.has_name),
        !block.has_trait && !block.args.has_factory && !block.args.has_name ==> head_fault(block)
            is None,
        !block.has_trait && block.args.has_name && !block.has_generics ==> head_fault(block)
            is None,
{
}

/// A service with a thread of its own can have every hook, and one that shares its threads those
/// that do not block; a method of another name is no hook of either.
pub proof fn law_a_hook_is_known_by_its_name(i: usize, name: Seq<char>)
    ensures
        hook_of(i, name, Flavor::Exclusive) == Ok::<Option<Hook>, FaultView>(hook_named(name)),
        hook_named(name) is None ==> (hook_of(i, name, Flavor::Shared) matches Ok(None)),
        hook_named(name) == Some(Hook::Init) || hook_named(name) == Some(Hook::Dispatch)
            ==> hook_of(i, name, Flavor::Shared) == Ok::<Option<Hook>, FaultView>(
            hook_named(name),
        ),
        hook_named(name) == Some(Hook::Idle) || hook_named(name) == Some(Hook::Interrupt)
            ==> hook_of(i, name, Flavor::Shared) is Err,
{
}

/// A method gets all other messages exactly if it says `default` and nothing else; to say nothing
/// at all is refused.
pub proof fn law_only_default_stands_for_the_rest(i: usize, exprs: Vec<MsgExpr>)
    ensures
        route_of(i, None) matches Ok(None),
        exprs@.len() == 0 ==> route_of(i, Some(exprs)) is Err,
        exprs@.len() > 0 ==> route_of(i, Some(exprs)) is Ok && (route_of(i, Some(exprs))
            == Ok::<Option<Route>, FaultView>(Some(Route::Fallback)) <==> exprs@.len() == 1 && (
        exprs@[0] matches MsgExpr::Path { last, single } && single && last@ == "default"@)),
{
}

/// A method gets the whole message exactly if its second parameter is a `Message`.
pub proof fn law_a_message_is_handed_over_whole(inputs: Seq<Input>, place: int)
    requires
        typed_place(inputs, 1) == Some(place),
    ensures
        arg_of(inputs) == Some(Arg::Whole) <==> (inputs[place] matches Input::Typed(shape) && (
        shape matches TypeShape::Path { last, bare } && last@ == "Message"@ && bare)),
        arg_of(inputs) is Some,
{
    law_parameters_are_counted_without_self(inputs, 1);
}

/// A plugin without methods has no entry and nothing to say when it is mounted and when it starts.
pub proof fn law_a_plugin_without_methods_is_empty(debug_all: bool)
    ensures
        plugin_parts(Seq::empty(), debug_all) matches Ok(parts) && parts.entries.len() == 0
            && !parts.has_mount && !parts.has_init,
{
}

/// The method of a hook is accepted exactly if it has `&self`, not too many parameters, and is
/// `async` where the kernel waits for it and is not where it does not.
pub proof fn law_a_hook_has_its_form(i: usize, method: Method, hook: Hook)
    ensures
        hook_fault(i, method, hook) is None <==> (method.is_async <==> hook is Init
            || hook is Dispatch) && self_fault(i, method.inputs@) is None && typed_count(
            method.inputs@,
        ) <= (if hook is Interrupt {
            0nat
        } else {
            2nat
        }),
{
}

/// No hook is written twice.
pub proof fn law_a_hook_is_written_once(
    items: Seq<Option<Method>>,
    parts: Seq<PartView>,
    hook: Hook,
    first: int,
    second: int,
)
    requires
        0 <= first < second < parts.len() <= usize::MAX,
        parts[first] == PartView::Hook(hook),
        parts[second] == PartView::Hook(hook),
    ensures
        hooks_of(items, parts) is Err,
    decreases parts.len(),
{
    let front = parts.drop_last();
    if second < front.len() {
        law_a_hook_is_written_once(items, front, hook, first, second);
    } else if hooks_of(items, front) is Ok {
        lemma_hook_noted(items, front, hook, first);
    }
}

proof fn lemma_hook_noted(
    items: Seq<Option<Method>>,
    parts: Seq<PartView>,
    hook: Hook,
    place: int,
)
    requires
        0 <= place < parts.len() <= usize::MAX,
        parts[place] == PartView::Hook(hook),
        hooks_of(items, parts) is Ok,
    ensures
        hooks_of(items, parts)->Ok_0.of(hook) is Some,
    decreases parts.len(),
{
    let front = parts.drop_last();
    if place < front.len() {
        lemma_hook_noted(items, front, hook, place);
    }
}

/// What is set for a message in the dashboard is what was written, each thing once; a name that is
/// blank and an example that is no JSON are refused.
pub proof fn law_what_is_set_for_a_message_is_kept(items: Seq<DebugItem>, text: String)
    requires
        debug_list(items) is Ok,
    ensures
        debug_list(Seq::empty()) matches Ok(set) && set.name is None && set.example is None,
        ({
            let before = debug_list(items)->Ok_0;
            let named = debug_list(items.push(DebugItem::Name(text)));
            let shown = debug_list(items.push(DebugItem::Example(text)));
            &&& named is Ok <==> before.name is None && !blank(text@)
            &&& named matches Ok(set) ==> set.name == Some(text@) && set.example == before.example
            &&& shown is Ok <==> before.example is None && json_error(text@) is None
            &&& shown matches Ok(set) ==> set.example == Some(text@) && set.name == before.name
            &&& debug_list(items.push(DebugItem::Other)) is Err
        }),
{
    assert(items.push(DebugItem::Name(text)).drop_last() =~= items);
    assert(items.push(DebugItem::Example(text)).drop_last() =~= items);
    assert(items.push(DebugItem::Other).drop_last() =~= items);
}

/// Every item of a block that is accepted has its part, which follows from the item and its place
/// alone; what is no method stays.
pub proof fn law_every_item_has_its_part(items: Seq<Option<Method>>, flavor: Flavor, k: int)
    requires
        parts_of(items, flavor) is Ok,
        0 <= k < items.len() <= usize::MAX,
    ensures
        parts_of(items, flavor)->Ok_0.len() == items.len(),
        items[k] is None ==> parts_of(items, flavor)->Ok_0[k] is Leftover,
        items[k] matches Some(method) ==> part_of(k as usize, method, flavor) == Ok::<
            PartView,
            FaultView,
        >(parts_of(items, flavor)->Ok_0[k]),
        parts_of(Seq::empty(), flavor) matches Ok(parts) && parts.len() == 0,
    decreases items.len(),
{
    lemma_parts_len(items, flavor);
    if k < items.len() - 1 {
        law_every_item_has_its_part(items.drop_last(), flavor, k);
        lemma_parts_len(items.drop_last(), flavor);
        assert(items.drop_last()[k] == items[k]);
    } else {
        lemma_parts_len(items.drop_last(), flavor);
    }
}

} // verus!
