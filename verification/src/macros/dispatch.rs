//! How the commands of a plugin are told apart.

#[allow(unused_imports)]
use crate::macros::plugin::EntryView;
use crate::macros::plugin::Entry;
#[allow(unused_imports)]
use crate::macros::shape::{fault, FaultView};
use crate::macros::shape::{Fault, Spot};
use crate::text::same_text;
use vstd::prelude::*;

verus! {

/// What a list of methods says.
pub open spec fn entries_view(entries: Seq<Entry>) -> Seq<EntryView> {
    entries.map_values(|e: Entry| e@)
}

/// Whether one of these handles a command as a whole.
pub open spec fn whole_among(entries: Seq<EntryView>, command: Seq<char>) -> bool {
    exists|k: int|
        0 <= k < entries.len() && (#[trigger] entries[k]).command == command && entries[k].variant
            is None
}

/// Whether one of these handles a variant of a command.
pub open spec fn variant_among(entries: Seq<EntryView>, command: Seq<char>) -> bool {
    exists|k: int|
        0 <= k < entries.len() && (#[trigger] entries[k]).command == command && entries[k].variant
            is Some
}

/// Whether one of these handles a variant of a command, of another enum than this.
pub open spec fn envelope_differs(
    entries: Seq<EntryView>,
    command: Seq<char>,
    envelope: Seq<char>,
) -> bool {
    exists|k: int|
        0 <= k < entries.len() && (#[trigger] entries[k]).command == command && entries[k].variant
            is Some && entries[k].variant->Some_0.1 != envelope
}

/// Whether one of these handles just this variant of a command.
pub open spec fn path_among(entries: Seq<EntryView>, command: Seq<char>, path: Seq<char>) -> bool {
    exists|k: int|
        0 <= k < entries.len() && (#[trigger] entries[k]).command == command && entries[k].variant
            is Some && entries[k].variant->Some_0.0 == path
}

/// What is wrong with a method beside those before it.
pub open spec fn clash(before: Seq<EntryView>, entry: EntryView) -> Option<FaultView> {
    let spot = Spot::Method(entry.place);
    match entry.variant {
        None => if variant_among(before, entry.command) {
            Some(fault(spot, "同一个插件命令不能混用普通 handler 与 variant handler"@))
        } else if whole_among(before, entry.command) {
            Some(fault(spot, "同一个插件命令的普通 handler 写了两遍"@))
        } else {
            None
        },
        Some((path, envelope)) => if whole_among(before, entry.command) {
            Some(fault(spot, "同一个插件命令不能混用普通 handler 与 variant handler"@))
        } else if envelope_differs(before, entry.command, envelope) {
            Some(fault(spot, "同一个插件命令的 variant handler 必须属于同一个外层枚举"@))
        } else if path_among(before, entry.command, path) {
            Some(fault(spot, "同一个 enum variant 写了两遍"@))
        } else {
            None
        },
    }
}

/// The first method that clashes with one before it.
pub open spec fn dispatch_fault(entries: Seq<EntryView>) -> Option<FaultView>
    decreases entries.len(),
{
    if entries.len() == 0 {
        None
    } else {
        match dispatch_fault(entries.drop_last()) {
            Some(wrong) => Some(wrong),
            None => clash(entries.drop_last(), entries.last()),
        }
    }
}

/// A fault in a part of the list is the fault of the list.
proof fn lemma_fault_stays(entries: Seq<EntryView>, count: int)
    requires
        0 <= count <= entries.len(),
        dispatch_fault(entries.take(count)) is Some,
    ensures
        dispatch_fault(entries) == dispatch_fault(entries.take(count)),
    decreases entries.len() - count,
{
    if count == entries.len() {
        assert(entries.take(count) =~= entries);
    } else {
        assert(entries.take(count + 1).drop_last() =~= entries.take(count));
        lemma_fault_stays(entries, count + 1);
    }
}

/// Checks a method beside those before it.
fn check_entry(entries: &Vec<Entry>, i: usize) -> (result: Result<(), Fault>)
    requires
        i < entries@.len(),
    ensures
        match clash(entries_view(entries@).take(i as int), entries@[i as int]@) {
            Some(view) => result matches Err(found) && found@ == view,
            None => result is Ok,
        },
{
    let ghost before = entries_view(entries@).take(i as int);
    let ghost command = entries@[i as int].command@;
    let ghost this = entries@[i as int]@;
    let mut whole = false;
    let mut parts = false;
    let mut other_envelope = false;
    let mut same_path = false;
    let mut k: usize = 0;
    while k < i
        invariant
            k <= i < entries@.len(),
            before == entries_view(entries@).take(i as int),
            command == entries@[i as int].command@,
            this == entries@[i as int]@,
            whole == exists|j: int|
                0 <= j < k && (#[trigger] before[j]).command == command && before[j].variant is None,
            parts == exists|j: int|
                0 <= j < k && (#[trigger] before[j]).command == command && before[j].variant is Some,
            this.variant is Some ==> other_envelope == exists|j: int|
                0 <= j < k && (#[trigger] before[j]).command == command && before[j].variant is Some
                    && before[j].variant->Some_0.1 != this.variant->Some_0.1,
            this.variant is Some ==> same_path == exists|j: int|
                0 <= j < k && (#[trigger] before[j]).command == command && before[j].variant is Some
                    && before[j].variant->Some_0.0 == this.variant->Some_0.0,
        decreases i - k,
    {
        assert(before[k as int] == entries@[k as int]@);
        if same_text(entries[k].command.as_str(), entries[i].command.as_str()) {
            match &entries[k].variant {
                None => {
                    whole = true;
                },
                Some((path, envelope)) => {
                    parts = true;
                    match &entries[i].variant {
                        Some((own_path, own_envelope)) => {
                            if !same_text(envelope.as_str(), own_envelope.as_str()) {
                                other_envelope = true;
                            }
                            if same_text(path.as_str(), own_path.as_str()) {
                                same_path = true;
                            }
                        },
                        None => {},
                    }
                },
            }
        }
        k += 1;
    }
    let spot = Spot::Method(entries[i].place);
    match &entries[i].variant {
        None => {
            if parts {
                return Err(
                    Fault::new(spot, "同一个插件命令不能混用普通 handler 与 variant handler"),
                );
            }
            if whole {
                return Err(Fault::new(spot, "同一个插件命令的普通 handler 写了两遍"));
            }
        },
        Some(_) => {
            if whole {
                return Err(
                    Fault::new(spot, "同一个插件命令不能混用普通 handler 与 variant handler"),
                );
            }
            if other_envelope {
                return Err(
                    Fault::new(
                        spot,
                        "同一个插件命令的 variant handler 必须属于同一个外层枚举",
                    ),
                );
            }
            if same_path {
                return Err(Fault::new(spot, "同一个 enum variant 写了两遍"));
            }
        },
    }
    Ok(())
}

/// Checks that commands can be told apart.
pub fn check_dispatch(entries: &Vec<Entry>) -> (result: Result<(), Fault>)
    ensures
        match dispatch_fault(entries_view(entries@)) {
            Some(view) => result matches Err(found) && found@ == view,
            None => result is Ok,
        },
{
    let ghost all = entries_view(entries@);
    let mut i: usize = 0;
    assert(all.take(0) =~= Seq::empty());
    while i < entries.len()
        invariant
            i <= entries@.len(),
            all == entries_view(entries@),
            dispatch_fault(all.take(i as int)) is None,
        decreases entries@.len() - i,
    {
        assert(all.take(i + 1).drop_last() =~= all.take(i as int));
        assert(all.take(i + 1).last() == entries@[i as int]@);
        match check_entry(entries, i) {
            Err(found) => {
                proof {
                    lemma_fault_stays(all, i + 1);
                }
                return Err(found);
            },
            Ok(()) => {},
        }
        i += 1;
    }
    assert(all.take(i as int) =~= all);
    Ok(())
}

/// The numbers below a bound of which something holds, in order.
pub open spec fn selected(count: nat, holds: spec_fn(int) -> bool) -> Seq<int>
    decreases count,
{
    if count == 0 {
        Seq::empty()
    } else {
        let before = selected((count - 1) as nat, holds);
        if holds(count - 1) {
            before.push(count - 1)
        } else {
            before
        }
    }
}

/// The methods that handle a command as a whole.
pub open spec fn is_whole(entries: Seq<EntryView>) -> spec_fn(int) -> bool {
    |k: int| entries[k].variant is None
}

/// The methods that handle the same command as this one, and a variant of it.
pub open spec fn is_beside(entries: Seq<EntryView>, leader: int) -> spec_fn(int) -> bool {
    |k: int| entries[k].variant is Some && entries[k].command == entries[leader].command
}

/// Whether a method is the first to handle its command.
pub open spec fn leads(entries: Seq<EntryView>, k: int) -> bool {
    forall|j: int| 0 <= j < k ==> (#[trigger] entries[j]).command != entries[k].command
}

/// The methods that are the first to handle their command.
pub open spec fn is_leader(entries: Seq<EntryView>) -> spec_fn(int) -> bool {
    |k: int| leads(entries, k)
}

/// The methods that are the first to handle a variant of their command.
pub open spec fn is_variant_leader(entries: Seq<EntryView>) -> spec_fn(int) -> bool {
    |k: int| entries[k].variant is Some && leads(entries, k)
}

/// The methods that are shown in the dashboard.
pub open spec fn is_exposed(entries: Seq<EntryView>) -> spec_fn(int) -> bool {
    |k: int| entries[k].debug_name is Some
}

/// How the commands of a plugin are told apart, by the places of the methods.
#[derive(Debug)]
pub struct DispatchPlan {
    /// Methods that handle a command as a whole.
    pub whole: Vec<usize>,
    /// Methods that handle variants, those of one command together.
    pub groups: Vec<Vec<usize>>,
    /// One method for each command.
    pub commands: Vec<usize>,
    /// Methods that are shown in the dashboard.
    pub exposed: Vec<usize>,
}

/// What a list of places says.
pub open spec fn places(list: Seq<usize>) -> Seq<int> {
    list.map_values(|n: usize| n as int)
}

/// The groups of methods that handle variants.
pub open spec fn groups_of(entries: Seq<EntryView>) -> Seq<Seq<int>> {
    selected(entries.len(), is_variant_leader(entries)).map_values(
        |leader: int| selected(entries.len(), is_beside(entries, leader)),
    )
}

impl DispatchPlan {
    /// The plan for these methods.
    pub open spec fn fits(self, entries: Seq<EntryView>) -> bool {
        &&& places(self.whole@) == selected(entries.len(), is_whole(entries))
        &&& self.groups@.map_values(|g: Vec<usize>| places(g@)) == groups_of(entries)
        &&& places(self.commands@) == selected(entries.len(), is_leader(entries))
        &&& places(self.exposed@) == selected(entries.len(), is_exposed(entries))
    }
}

/// Whether a method is the first to handle its command.
fn leads_at(entries: &Vec<Entry>, i: usize) -> (first: bool)
    requires
        i < entries@.len(),
    ensures
        first == leads(entries_view(entries@), i as int),
{
    let ghost all = entries_view(entries@);
    let mut k: usize = 0;
    while k < i
        invariant
            k <= i < entries@.len(),
            all == entries_view(entries@),
            forall|j: int| 0 <= j < k ==> (#[trigger] all[j]).command != all[i as int].command,
        decreases i - k,
    {
        assert(all[k as int].command == entries@[k as int].command@);
        assert(all[i as int].command == entries@[i as int].command@);
        if same_text(entries[k].command.as_str(), entries[i].command.as_str()) {
            return false;
        }
        k += 1;
    }
    true
}

/// The methods that handle variants of the same command as this one.
fn beside(entries: &Vec<Entry>, leader: usize) -> (group: Vec<usize>)
    requires
        leader < entries@.len(),
    ensures
        places(group@) == selected(
            entries@.len(),
            is_beside(entries_view(entries@), leader as int),
        ),
{
    let ghost all = entries_view(entries@);
    let ghost holds = is_beside(all, leader as int);
    let mut group: Vec<usize> = Vec::new();
    let mut i: usize = 0;
    assert(places(group@) =~= Seq::empty());
    while i < entries.len()
        invariant
            i <= entries@.len(),
            leader < entries@.len(),
            all == entries_view(entries@),
            holds == is_beside(all, leader as int),
            places(group@) == selected(i as nat, holds),
        decreases entries@.len() - i,
    {
        let ghost before = places(group@);
        assert(all[i as int] == entries@[i as int]@);
        assert(all[leader as int] == entries@[leader as int]@);
        if entries[i].variant.is_some() && same_text(
            entries[i].command.as_str(),
            entries[leader].command.as_str(),
        ) {
            group.push(i);
            assert(places(group@) =~= before.push(i as int));
        }
        i += 1;
    }
    group
}

/// Settles how the commands of a plugin are told apart.
pub fn plan_dispatch(entries: &Vec<Entry>) -> (result: Result<DispatchPlan, Fault>)
    ensures
        match dispatch_fault(entries_view(entries@)) {
            Some(view) => result matches Err(found) && found@ == view,
            None => result matches Ok(plan) && plan.fits(entries_view(entries@)),
        },
{
    match check_dispatch(entries) {
        Err(found) => {
            return Err(found);
        },
        Ok(()) => {},
    }
    let ghost all = entries_view(entries@);
    let mut whole: Vec<usize> = Vec::new();
    let mut groups: Vec<Vec<usize>> = Vec::new();
    let mut commands: Vec<usize> = Vec::new();
    let mut exposed: Vec<usize> = Vec::new();
    let ghost mut leaders: Seq<int> = Seq::empty();
    let mut i: usize = 0;
    assert(places(whole@) =~= Seq::empty());
    assert(places(commands@) =~= Seq::empty());
    assert(places(exposed@) =~= Seq::empty());
    while i < entries.len()
        invariant
            i <= entries@.len(),
            all == entries_view(entries@),
            places(whole@) == selected(i as nat, is_whole(all)),
            places(commands@) == selected(i as nat, is_leader(all)),
            places(exposed@) == selected(i as nat, is_exposed(all)),
            leaders == selected(i as nat, is_variant_leader(all)),
            groups@.len() == leaders.len(),
            forall|k: int|
                0 <= k < leaders.len() ==> places((#[trigger] groups@[k])@) == selected(
                    all.len(),
                    is_beside(all, leaders[k]),
                ),
        decreases entries@.len() - i,
    {
        let ghost before_whole = places(whole@);
        let ghost before_commands = places(commands@);
        let ghost before_exposed = places(exposed@);
        assert(all[i as int] == entries@[i as int]@);
        let first = leads_at(entries, i);
        if first {
            commands.push(i);
            assert(places(commands@) =~= before_commands.push(i as int));
        }
        if entries[i].variant.is_none() {
            whole.push(i);
            assert(places(whole@) =~= before_whole.push(i as int));
        } else if first {
            let group = beside(entries, i);
            groups.push(group);
            proof {
                leaders = leaders.push(i as int);
            }
        }
        if entries[i].debug_name.is_some() {
            exposed.push(i);
            assert(places(exposed@) =~= before_exposed.push(i as int));
        }
        i += 1;
    }
    let plan = DispatchPlan { whole, groups, commands, exposed };
    assert(plan.groups@.map_values(|g: Vec<usize>| places(g@)) =~= groups_of(all));
    Ok(plan)
}

/// In a list without clashes no method stands in the way of another: two that handle the same
/// command handle different variants of one enum.
pub proof fn law_methods_do_not_clash(entries: Seq<EntryView>, j: int, k: int)
    requires
        dispatch_fault(entries) is None,
        0 <= j < k < entries.len(),
        entries[j].command == entries[k].command,
    ensures
        entries[j].variant is Some,
        entries[k].variant is Some,
        entries[j].variant->Some_0.1 == entries[k].variant->Some_0.1,
        entries[j].variant->Some_0.0 != entries[k].variant->Some_0.0,
    decreases entries.len(),
{
    let before = entries.drop_last();
    if k < entries.len() - 1 {
        law_methods_do_not_clash(before, j, k);
        assert(before[j] == entries[j]);
        assert(before[k] == entries[k]);
    } else {
        assert(clash(before, entries.last()) is None);
        assert(before[j] == entries[j]);
        assert(before[j].command == entries.last().command);
    }
}

} // verus!
