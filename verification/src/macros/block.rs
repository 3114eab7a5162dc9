//! The block of methods that a service is made of, as a whole.

#[allow(unused_imports)]
use crate::macros::service::{part_of, self_fault, PartView};
use crate::macros::service::{check_self, read_part, Flavor, Hook, Method, Part, Route, ServiceArgs};
#[allow(unused_imports)]
use crate::macros::shape::{fault, typed_count, FaultView};
use crate::macros::shape::{count_typed, Fault, Spot};
#[allow(unused_imports)]
use crate::text::decimal;
use crate::text::push_decimal;
use vstd::prelude::*;

verus! {

/// A block of methods. What is in it and is no method is `None`.
#[derive(Debug)]
pub struct Block {
    pub args: ServiceArgs,
    pub has_generics: bool,
    pub has_trait: bool,
    pub items: Vec<Option<Method>>,
}

/// What is wrong with the block before its methods are looked at.
pub open spec fn head_fault(block: Block) -> Option<FaultView> {
    if block.args.has_factory && !block.args.has_name {
        Some(fault(Spot::Attribute, "`factory` 只有和 `name` 一起写才有意义"@))
    } else if block.args.has_name && block.has_generics {
        Some(
            fault(
                Spot::Generics,
                "泛型服务不能自动注册；请具体化类型后手工加入 Registry"@,
            ),
        )
    } else if block.has_trait {
        Some(
            fault(
                Spot::Trait,
                "标在 inherent impl 块上，不是 trait 实现——`impl Service for X` 本来就没有样板可消"@,
            ),
        )
    } else {
        None
    }
}

/// Checks the block before its methods are looked at.
fn check_head(block: &Block) -> (result: Result<(), Fault>)
    ensures
        match head_fault(*block) {
            Some(view) => result matches Err(found) && found@ == view,
            None => result is Ok,
        },
{
    if block.args.has_factory && !block.args.has_name {
        return Err(Fault::new(Spot::Attribute, "`factory` 只有和 `name` 一起写才有意义"));
    }
    if block.args.has_name && block.has_generics {
        return Err(
            Fault::new(
                Spot::Generics,
                "泛型服务不能自动注册；请具体化类型后手工加入 Registry",
            ),
        );
    }
    if block.has_trait {
        return Err(
            Fault::new(
                Spot::Trait,
                "标在 inherent impl 块上，不是 trait 实现——`impl Service for X` 本来就没有样板可消",
            ),
        );
    }
    Ok(())
}

/// What becomes of everything in the block, or the first thing that is wrong.
pub open spec fn parts_of(items: Seq<Option<Method>>, flavor: Flavor) -> Result<
    Seq<PartView>,
    FaultView,
>
    decreases items.len(),
{
    if items.len() == 0 {
        Ok(Seq::empty())
    } else {
        match parts_of(items.drop_last(), flavor) {
            Err(wrong) => Err(wrong),
            Ok(parts) => match items.last() {
                None => Ok(parts.push(PartView::Leftover)),
                Some(method) => match part_of((items.len() - 1) as usize, method, flavor) {
                    Ok(part) => Ok(parts.push(part)),
                    Err(wrong) => Err(wrong),
                },
            },
        }
    }
}

/// What a list of parts says.
pub open spec fn parts_view(parts: Seq<Part>) -> Seq<PartView> {
    parts.map_values(|p: Part| p@)
}

/// A fault in a part of the block is the fault of the block.
proof fn lemma_parts_stay(items: Seq<Option<Method>>, flavor: Flavor, count: int)
    requires
        0 <= count <= items.len(),
        parts_of(items.take(count), flavor) is Err,
    ensures
        parts_of(items, flavor) == parts_of(items.take(count), flavor),
    decreases items.len() - count,
{
    if count == items.len() {
        assert(items.take(count) =~= items);
    } else {
        assert(items.take(count + 1).drop_last() =~= items.take(count));
        lemma_parts_stay(items, flavor, count + 1);
    }
}

/// There is a part for everything in the block.
pub proof fn lemma_parts_len(items: Seq<Option<Method>>, flavor: Flavor)
    ensures
        parts_of(items, flavor) matches Ok(parts) ==> parts.len() == items.len() && forall|k: int|
            #![trigger parts[k]]
            0 <= k < items.len() && !(parts[k] is Leftover) ==> items[k] is Some,
    decreases items.len(),
{
    if items.len() > 0 {
        lemma_parts_len(items.drop_last(), flavor);
        if parts_of(items, flavor) is Ok {
            let parts = parts_of(items, flavor)->Ok_0;
            let before = parts_of(items.drop_last(), flavor)->Ok_0;
            assert forall|k: int|
                #![trigger parts[k]]
                0 <= k < items.len() && !(parts[k] is Leftover) implies items[k] is Some by {
                if k < items.len() - 1 {
                    assert(parts[k] == before[k]);
                    assert(items.drop_last()[k] == items[k]);
                }
            }
        }
    }
}

/// Settles what becomes of everything in the block.
fn read_parts(items: &Vec<Option<Method>>, flavor: Flavor) -> (result: Result<Vec<Part>, Fault>)
    ensures
        match parts_of(items@, flavor) {
            Ok(view) => result matches Ok(parts) && parts_view(parts@) == view,
            Err(view) => result matches Err(found) && found@ == view,
        },
{
    let mut parts: Vec<Part> = Vec::new();
    let mut i: usize = 0;
    assert(items@.take(0) =~= Seq::empty());
    assert(parts_view(parts@) =~= Seq::empty());
    while i < items.len()
        invariant
            i <= items@.len(),
            parts_of(items@.take(i as int), flavor) == Ok::<Seq<PartView>, FaultView>(
                parts_view(parts@),
            ),
        decreases items@.len() - i,
    {
        let ghost before = parts_view(parts@);
        assert(items@.take(i + 1).drop_last() =~= items@.take(i as int));
        assert(items@.take(i + 1).last() == items@[i as int]);
        let part = match &items[i] {
            None => Part::Leftover,
            Some(method) => match read_part(i, method, flavor) {
                Ok(part) => part,
                Err(found) => {
                    proof {
                        lemma_parts_stay(items@, flavor, i + 1);
                    }
                    return Err(found);
                },
            },
        };
        let ghost view = part@;
        parts.push(part);
        assert(parts_view(parts@) =~= before.push(view));
        i += 1;
    }
    assert(items@.take(i as int) =~= items@);
    Ok(parts)
}

/// Whether a part is the hook that takes all messages.
pub open spec fn has_dispatch(parts: Seq<PartView>) -> bool {
    exists|k: int| 0 <= k < parts.len() && #[trigger] parts[k] == PartView::Hook(Hook::Dispatch)
}

/// Whether there is a method that messages are handed to.
pub open spec fn has_handler(parts: Seq<PartView>) -> bool {
    exists|k: int| 0 <= k < parts.len() && #[trigger] parts[k] is Handler
}

/// The methods that the kernel calls, by their places in the block.
#[derive(Debug, Clone, Copy)]
pub struct Hooks {
    pub init: Option<usize>,
    pub dispatch: Option<usize>,
    pub idle: Option<usize>,
    pub interrupt: Option<usize>,
}

impl Hooks {
    /// The method of a hook.
    pub open spec fn of(self, hook: Hook) -> Option<usize> {
        match hook {
            Hook::Init => self.init,
            Hook::Dispatch => self.dispatch,
            Hook::Idle => self.idle,
            Hook::Interrupt => self.interrupt,
        }
    }

    /// The same with a method for a hook.
    pub open spec fn with(self, hook: Hook, place: usize) -> Hooks {
        match hook {
            Hook::Init => Hooks { init: Some(place), ..self },
            Hook::Dispatch => Hooks { dispatch: Some(place), ..self },
            Hook::Idle => Hooks { idle: Some(place), ..self },
            Hook::Interrupt => Hooks { interrupt: Some(place), ..self },
        }
    }
}

/// How many parameters besides `self` the method of a hook may have.
pub open spec fn hook_limit(hook: Hook) -> nat {
    match hook {
        Hook::Interrupt => 0,
        _ => 2,
    }
}

/// What is wrong with the method of a hook.
pub open spec fn hook_fault(i: usize, method: Method, hook: Hook) -> Option<FaultView> {
    let waits = hook is Init || hook is Dispatch;
    if waits && !method.is_async {
        Some(
            fault(
                Spot::Method(i),
                "钩子要写成 `async fn`——宏正是为了把它裹成 `Box::pin(async move { .. })`"@,
            ),
        )
    } else if !waits && method.is_async {
        Some(
            fault(
                Spot::Method(i),
                "`idle` / `interrupt` 是同步钩子：它们跑在自己那条线程上，本来就可以直接阻塞"@,
            ),
        )
    } else if self_fault(i, method.inputs@) is Some {
        self_fault(i, method.inputs@)
    } else if typed_count(method.inputs@) > hook_limit(hook) {
        Some(
            fault(
                Spot::Inputs(i),
                "`"@ + method.name@ + "` 最多 "@ + decimal(hook_limit(hook))
                    + " 个参数（除 self）"@,
            ),
        )
    } else {
        None
    }
}

/// Checks the method of a hook.
fn check_hook(i: usize, method: &Method, hook: Hook) -> (result: Result<(), Fault>)
    ensures
        match hook_fault(i, *method, hook) {
            Some(view) => result matches Err(found) && found@ == view,
            None => result is Ok,
        },
{
    let waits = hook == Hook::Init || hook == Hook::Dispatch;
    if waits && !method.is_async {
        return Err(
            Fault::new(
                Spot::Method(i),
                "钩子要写成 `async fn`——宏正是为了把它裹成 `Box::pin(async move { .. })`",
            ),
        );
    }
    if !waits && method.is_async {
        return Err(
            Fault::new(
                Spot::Method(i),
                "`idle` / `interrupt` 是同步钩子：它们跑在自己那条线程上，本来就可以直接阻塞",
            ),
        );
    }
    match check_self(i, &method.inputs) {
        Err(found) => {
            return Err(found);
        },
        Ok(()) => {},
    }
    let limit: usize = if hook == Hook::Interrupt {
        0
    } else {
        2
    };
    if count_typed(&method.inputs) > limit {
        let mut text = "`".to_owned();
        text.append(method.name.as_str());
        text.append("` 最多 ");
        push_decimal(&mut text, limit as u64);
        text.append(" 个参数（除 self）");
        return Err(Fault { spot: Spot::Inputs(i), text });
    }
    Ok(())
}

/// The methods of the hooks, or the first thing that is wrong with them.
pub open spec fn hooks_of(items: Seq<Option<Method>>, parts: Seq<PartView>) -> Result<
    Hooks,
    FaultView,
>
    decreases parts.len(),
{
    if parts.len() == 0 {
        Ok(Hooks { init: None, dispatch: None, idle: None, interrupt: None })
    } else {
        let i = (parts.len() - 1) as usize;
        match hooks_of(items, parts.drop_last()) {
            Err(wrong) => Err(wrong),
            Ok(hooks) => match parts.last() {
                PartView::Hook(hook) => if hooks.of(hook) is Some {
                    Err(fault(Spot::Method(i), "同一个钩子写了两遍"@))
                } else {
                    match hook_fault(i, items[parts.len() - 1]->Some_0, hook) {
                        Some(wrong) => Err(wrong),
                        None => Ok(hooks.with(hook, i)),
                    }
                },
                _ => Ok(hooks),
            },
        }
    }
}

/// A fault in a part of the hooks is the fault of the hooks.
proof fn lemma_hooks_stay(items: Seq<Option<Method>>, parts: Seq<PartView>, count: int)
    requires
        0 <= count <= parts.len(),
        hooks_of(items, parts.take(count)) is Err,
    ensures
        hooks_of(items, parts) == hooks_of(items, parts.take(count)),
    decreases parts.len() - count,
{
    if count == parts.len() {
        assert(parts.take(count) =~= parts);
    } else {
        assert(parts.take(count + 1).drop_last() =~= parts.take(count));
        lemma_hooks_stay(items, parts, count + 1);
    }
}

/// Finds the methods of the hooks.
fn read_hooks(items: &Vec<Option<Method>>, parts: &Vec<Part>) -> (result: Result<Hooks, Fault>)
    requires
        parts@.len() == items@.len(),
        forall|k: int|
            0 <= k < items@.len() && !(#[trigger] parts@[k] is Leftover) ==> items@[k] is Some,
    ensures
        match hooks_of(items@, parts_view(parts@)) {
            Ok(hooks) => result == Ok::<Hooks, Fault>(hooks),
            Err(view) => result matches Err(found) && found@ == view,
        },
{
    let ghost all = parts_view(parts@);
    let mut hooks = Hooks { init: None, dispatch: None, idle: None, interrupt: None };
    let mut i: usize = 0;
    assert(all.take(0) =~= Seq::empty());
    while i < parts.len()
        invariant
            i <= parts@.len(),
            parts@.len() == items@.len(),
            forall|k: int|
                0 <= k < items@.len() && !(#[trigger] parts@[k] is Leftover) ==> items@[k] is Some,
            all == parts_view(parts@),
            hooks_of(items@, all.take(i as int)) == Ok::<Hooks, FaultView>(hooks),
        decreases parts@.len() - i,
    {
        assert(all.take(i + 1).drop_last() =~= all.take(i as int));
        assert(all.take(i + 1).last() == parts@[i as int]@);
        match &parts[i] {
            Part::Hook(hook) => {
                let held = match *hook {
                    Hook::Init => hooks.init,
                    Hook::Dispatch => hooks.dispatch,
                    Hook::Idle => hooks.idle,
                    Hook::Interrupt => hooks.interrupt,
                };
                if held.is_some() {
                    proof {
                        lemma_hooks_stay(items@, all, i + 1);
                    }
                    return Err(Fault::new(Spot::Method(i), "同一个钩子写了两遍"));
                }
                match &items[i] {
                    Some(method) => {
                        match check_hook(i, method, *hook) {
                            Err(found) => {
                                proof {
                                    lemma_hooks_stay(items@, all, i + 1);
                                }
                                return Err(found);
                            },
                            Ok(()) => {},
                        }
                    },
                    None => {},
                }
                match *hook {
                    Hook::Init => {
                        hooks.init = Some(i);
                    },
                    Hook::Dispatch => {
                        hooks.dispatch = Some(i);
                    },
                    Hook::Idle => {
                        hooks.idle = Some(i);
                    },
                    Hook::Interrupt => {
                        hooks.interrupt = Some(i);
                    },
                }
            },
            _ => {},
        }
        i += 1;
    }
    assert(all.take(i as int) =~= all);
    Ok(hooks)
}

/// The method that gets all other messages, or the second of two.
pub open spec fn fallback_of(parts: Seq<PartView>) -> Result<Option<usize>, FaultView>
    decreases parts.len(),
{
    if parts.len() == 0 {
        Ok(None)
    } else {
        let i = (parts.len() - 1) as usize;
        match fallback_of(parts.drop_last()) {
            Err(wrong) => Err(wrong),
            Ok(found) => match parts.last() {
                PartView::Handler(plan) => if plan.route is Fallback {
                    if found is Some {
                        Err(fault(Spot::Method(i), "`#[msg(default)]` 只能有一个"@))
                    } else {
                        Ok(Some(i))
                    }
                } else {
                    Ok(found)
                },
                _ => Ok(found),
            },
        }
    }
}

/// A second method for all other messages in a part of the block is the first such one.
proof fn lemma_fallback_stays(parts: Seq<PartView>, count: int)
    requires
        0 <= count <= parts.len(),
        fallback_of(parts.take(count)) is Err,
    ensures
        fallback_of(parts) == fallback_of(parts.take(count)),
    decreases parts.len() - count,
{
    if count == parts.len() {
        assert(parts.take(count) =~= parts);
    } else {
        assert(parts.take(count + 1).drop_last() =~= parts.take(count));
        lemma_fallback_stays(parts, count + 1);
    }
}

/// Finds the method that gets all other messages.
fn read_fallback(parts: &Vec<Part>) -> (result: Result<Option<usize>, Fault>)
    ensures
        match fallback_of(parts_view(parts@)) {
            Ok(found) => result == Ok::<Option<usize>, Fault>(found),
            Err(view) => result matches Err(found) && found@ == view,
        },
{
    let ghost all = parts_view(parts@);
    let mut found: Option<usize> = None;
    let mut i: usize = 0;
    assert(all.take(0) =~= Seq::empty());
    while i < parts.len()
        invariant
            i <= parts@.len(),
            all == parts_view(parts@),
            fallback_of(all.take(i as int)) == Ok::<Option<usize>, FaultView>(found),
        decreases parts@.len() - i,
    {
        assert(all.take(i + 1).drop_last() =~= all.take(i as int));
        assert(all.take(i + 1).last() == parts@[i as int]@);
        match &parts[i] {
            Part::Handler(plan) => {
                if plan.route == Route::Fallback {
                    if found.is_some() {
                        proof {
                            lemma_fallback_stays(all, i + 1);
                        }
                        return Err(Fault::new(Spot::Method(i), "`#[msg(default)]` 只能有一个"));
                    }
                    found = Some(i);
                }
            },
            _ => {},
        }
        i += 1;
    }
    assert(all.take(i as int) =~= all);
    Ok(found)
}

/// What is made of a block: what becomes of everything in it, which methods the kernel calls, and
/// which gets the messages that no other handles. A service that takes all messages itself has no
/// such method.
#[derive(Debug)]
pub struct BlockPlan {
    pub parts: Vec<Part>,
    pub hooks: Hooks,
    pub fallback: Option<usize>,
}

/// What is made of a block.
#[verifier::ext_equal]
pub struct BlockView {
    pub parts: Seq<PartView>,
    pub hooks: Hooks,
    pub fallback: Option<usize>,
}

impl View for BlockPlan {
    type V = BlockView;

    open spec fn view(&self) -> BlockView {
        BlockView { parts: parts_view(self.parts@), hooks: self.hooks, fallback: self.fallback }
    }
}

/// What is made of a block, or what is wrong with it.
pub open spec fn planned(block: Block, flavor: Flavor) -> Result<BlockView, FaultView> {
    if head_fault(block) is Some {
        Err(head_fault(block)->Some_0)
    } else {
        match parts_of(block.items@, flavor) {
            Err(wrong) => Err(wrong),
            Ok(parts) => if has_dispatch(parts) && has_handler(parts) {
                Err(
                    fault(
                        Spot::Attribute,
                        "`dispatch` 与 `#[msg]` 只能选一种：要么自己分发，要么让宏按协议号分发"@,
                    ),
                )
            } else {
                match hooks_of(block.items@, parts) {
                    Err(wrong) => Err(wrong),
                    Ok(hooks) => if hooks.dispatch is Some {
                        Ok(BlockView { parts, hooks, fallback: None })
                    } else {
                        match fallback_of(parts) {
                            Err(wrong) => Err(wrong),
                            Ok(fallback) => Ok(BlockView { parts, hooks, fallback }),
                        }
                    },
                }
            },
        }
    }
}

/// Whether one of the methods takes all messages, and whether messages are handed to one.
fn look_through(parts: &Vec<Part>) -> (found: (bool, bool))
    ensures
        found.0 == has_dispatch(parts_view(parts@)),
        found.1 == has_handler(parts_view(parts@)),
{
    let ghost all = parts_view(parts@);
    let mut dispatches = false;
    let mut handles = false;
    let mut i: usize = 0;
    while i < parts.len()
        invariant
            i <= parts@.len(),
            all == parts_view(parts@),
            dispatches == exists|k: int|
                0 <= k < i && #[trigger] all[k] == PartView::Hook(Hook::Dispatch),
            handles == exists|k: int| 0 <= k < i && #[trigger] all[k] is Handler,
        decreases parts@.len() - i,
    {
        assert(all[i as int] == parts@[i as int]@);
        match &parts[i] {
            Part::Hook(Hook::Dispatch) => {
                dispatches = true;
            },
            Part::Handler(_) => {
                handles = true;
            },
            _ => {},
        }
        i += 1;
    }
    (dispatches, handles)
}

/// Settles what is made of a block.
pub fn plan_block(block: &Block, flavor: Flavor) -> (result: Result<BlockPlan, Fault>)
    ensures
        match planned(*block, flavor) {
            Ok(view) => result matches Ok(plan) && plan@ == view,
            Err(view) => result matches Err(found) && found@ == view,
        },
{
    match check_head(block) {
        Err(found) => {
            return Err(found);
        },
        Ok(()) => {},
    }
    let parts = match read_parts(&block.items, flavor) {
        Err(found) => {
            return Err(found);
        },
        Ok(parts) => parts,
    };
    let (dispatches, handles) = look_through(&parts);
    if dispatches && handles {
        return Err(
            Fault::new(
                Spot::Attribute,
                "`dispatch` 与 `#[msg]` 只能选一种：要么自己分发，要么让宏按协议号分发",
            ),
        );
    }
    proof {
        lemma_parts_len(block.items@, flavor);
        let all = parts_view(parts@);
        assert forall|k: int|
            0 <= k < block.items@.len() && !(#[trigger] parts@[k] is Leftover) implies
                block.items@[k] is Some by {
            assert(all[k] == parts@[k]@);
        }
    }
    let hooks = match read_hooks(&block.items, &parts) {
        Err(found) => {
            return Err(found);
        },
        Ok(hooks) => hooks,
    };
    if hooks.dispatch.is_some() {
        return Ok(BlockPlan { parts, hooks, fallback: None });
    }
    match read_fallback(&parts) {
        Err(found) => Err(found),
        Ok(fallback) => Ok(BlockPlan { parts, hooks, fallback }),
    }
}

/// A block that is accepted never hands a message to two places: where it takes all messages
/// itself, none is handed to its methods.
pub proof fn law_messages_go_one_way(block: Block, flavor: Flavor)
    requires
        planned(block, flavor) is Ok,
    ensures
        planned(block, flavor)->Ok_0.hooks.dispatch is Some ==> !has_handler(
            planned(block, flavor)->Ok_0.parts,
        ),
{
    let plan = planned(block, flavor)->Ok_0;
    lemma_dispatch_is_a_part(block.items@, plan.parts);
}

/// The method that takes all messages is one of the parts.
proof fn lemma_dispatch_is_a_part(items: Seq<Option<Method>>, parts: Seq<PartView>)
    ensures
        hooks_of(items, parts) matches Ok(hooks) ==> (hooks.dispatch is Some ==> has_dispatch(
            parts,
        )),
    decreases parts.len(),
{
    if parts.len() > 0 {
        let front = parts.drop_last();
        lemma_dispatch_is_a_part(items, front);
        if parts.last() == PartView::Hook(Hook::Dispatch) {
            assert(parts[parts.len() - 1] == PartView::Hook(Hook::Dispatch));
        } else if has_dispatch(front) {
            let k = choose|k: int|
                0 <= k < front.len() && #[trigger] front[k] == PartView::Hook(Hook::Dispatch);
            assert(parts[k] == PartView::Hook(Hook::Dispatch));
        }
    }
}

/// A service that shares its threads never idles.
pub proof fn law_a_shared_service_does_not_idle(items: Seq<Option<Method>>)
    requires
        parts_of(items, Flavor::Shared) is Ok,
    ensures
        forall|k: int|
            #![trigger parts_of(items, Flavor::Shared)->Ok_0[k]]
            0 <= k < items.len() ==> parts_of(items, Flavor::Shared)->Ok_0[k] != PartView::Hook(
                Hook::Idle,
            ) && parts_of(items, Flavor::Shared)->Ok_0[k] != PartView::Hook(Hook::Interrupt),
    decreases items.len(),
{
    lemma_parts_len(items, Flavor::Shared);
    if items.len() > 0 {
        lemma_parts_len(items.drop_last(), Flavor::Shared);
        law_a_shared_service_does_not_idle(items.drop_last());
        let parts = parts_of(items, Flavor::Shared)->Ok_0;
        let before = parts_of(items.drop_last(), Flavor::Shared)->Ok_0;
        assert forall|k: int| #![trigger parts[k]] 0 <= k < items.len() implies parts[k]
            != PartView::Hook(Hook::Idle) && parts[k] != PartView::Hook(Hook::Interrupt) by {
            if k < items.len() - 1 {
                assert(parts[k] == before[k]);
            }
        }
    }
}

} // verus!
