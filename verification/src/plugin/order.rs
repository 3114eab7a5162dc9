//! An order in which everything comes after what it depends on.

use vstd::prelude::*;

verus! {

/// Where putting in order ends: everything that is in order, or an item that depends on itself.
pub type Walk = Result<Seq<int>, int>;

/// Puts an item behind what it depends on. `deps` lists what each item depends on, `path` holds
/// the items that wait for this one, and `done` what is in order already.
pub open spec fn visit(deps: Seq<Seq<int>>, path: Seq<int>, done: Seq<int>, item: int) -> Walk
    decreases deps.len() - path.len(), 1int, 0nat,
{
    if done.contains(item) {
        Ok(done)
    } else if path.contains(item) || path.len() >= deps.len() {
        Err(item)
    } else {
        match visit_all(deps, path.push(item), done, deps[item]) {
            Ok(done) => Ok(done.push(item)),
            Err(back) => Err(back),
        }
    }
}

/// Puts several items in order, one after the other.
pub open spec fn visit_all(
    deps: Seq<Seq<int>>,
    path: Seq<int>,
    done: Seq<int>,
    items: Seq<int>,
) -> Walk
    decreases deps.len() - path.len(), 2int, items.len(),
{
    if items.len() == 0 {
        Ok(done)
    } else {
        match visit_all(deps, path, done, items.drop_last()) {
            Ok(done) => visit(deps, path, done, items.last()),
            Err(back) => Err(back),
        }
    }
}

/// The numbers below another, in order.
pub open spec fn below(count: nat) -> Seq<int> {
    Seq::new(count, |i: int| i)
}

/// All items in order, each as early as the order in which they are listed allows.
pub open spec fn in_order(deps: Seq<Seq<int>>) -> Walk {
    visit_all(deps, Seq::empty(), Seq::empty(), below(deps.len()))
}

/// Every item depends on items that there are.
pub open spec fn deps_ok(deps: Seq<Seq<int>>) -> bool {
    forall|i: int, k: int|
        0 <= i < deps.len() && 0 <= k < deps[i].len() ==> 0 <= #[trigger] deps[i][k] < deps.len()
}

/// Whether one item depends on another.
pub open spec fn depends(deps: Seq<Seq<int>>, item: int, on: int) -> bool {
    deps[item].contains(on)
}

/// A list of different items that there are, each behind everything it depends on.
pub open spec fn ordered(deps: Seq<Seq<int>>, done: Seq<int>) -> bool {
    &&& done.no_duplicates()
    &&& forall|i: int| 0 <= i < done.len() ==> 0 <= #[trigger] done[i] < deps.len()
    &&& forall|i: int, on: int|
        0 <= i < done.len() && #[trigger] depends(deps, done[i], on) ==> done.take(i).contains(on)
}

/// Items each of which depends on the next one.
pub open spec fn chain(deps: Seq<Seq<int>>, items: Seq<int>) -> bool {
    &&& forall|i: int| 0 <= i < items.len() ==> 0 <= #[trigger] items[i] < deps.len()
    &&& forall|i: int|
        0 <= i < items.len() - 1 ==> depends(deps, #[trigger] items[i], items[i + 1])
}

/// Items each of which depends on the next one, and the last on the first.
pub open spec fn cycle(deps: Seq<Seq<int>>, items: Seq<int>) -> bool {
    &&& items.len() > 0
    &&& chain(deps, items)
    &&& depends(deps, items.last(), items[0])
}

/// What is in order stays so, and in front.
proof fn lemma_visit(deps: Seq<Seq<int>>, path: Seq<int>, done: Seq<int>, item: int)
    requires
        deps_ok(deps),
        ordered(deps, done),
        0 <= item < deps.len(),
        path.no_duplicates(),
        chain(deps, path.push(item)),
        forall|i: int| 0 <= i < path.len() ==> !done.contains(#[trigger] path[i]),
    ensures
        match visit(deps, path, done, item) {
            Ok(after) => {
                &&& ordered(deps, after)
                &&& done.is_prefix_of(after)
                &&& after.contains(item)
                &&& forall|i: int| 0 <= i < path.len() ==> !after.contains(#[trigger] path[i])
            },
            Err(back) => exists|items: Seq<int>| #[trigger] cycle(deps, items) && items[0] == back,
        },
    decreases deps.len() - path.len(), 1int, 0nat,
{
    if done.contains(item) {
    } else if path.contains(item) {
        lemma_closed_path(deps, path, item);
    } else if path.len() >= deps.len() {
        lemma_path_is_short(deps, path, item);
    } else {
        let longer = path.push(item);
        assert(longer.no_duplicates());
        assert forall|i: int| 0 <= i < longer.len() implies !done.contains(#[trigger] longer[i]) by {
            if i < path.len() {
                assert(longer[i] == path[i]);
            }
        }
        assert forall|k: int| 0 <= k < deps[item].len() implies {
            &&& 0 <= #[trigger] deps[item][k] < deps.len()
            &&& chain(deps, longer.push(deps[item][k]))
        } by {
            lemma_chain_grows(deps, path, item, k);
        }
        lemma_visit_all(deps, longer, done, deps[item]);
        match visit_all(deps, longer, done, deps[item]) {
            Ok(between) => {
                lemma_one_more(deps, path, between, item);
            },
            Err(_) => {},
        }
    }
}

/// A path that comes back to an item on it holds a cycle.
proof fn lemma_closed_path(deps: Seq<Seq<int>>, path: Seq<int>, item: int)
    requires
        chain(deps, path.push(item)),
        path.contains(item),
    ensures
        exists|items: Seq<int>| #[trigger] cycle(deps, items) && items[0] == item,
{
    let from = path.index_of(item);
    let items = path.skip(from);
    assert(path[from] == item);
    let longer = path.push(item);
    assert forall|i: int| 0 <= i < items.len() implies 0 <= #[trigger] items[i] < deps.len() by {
        assert(items[i] == longer[from + i]);
    }
    assert forall|i: int| 0 <= i < items.len() - 1 implies depends(
        deps,
        #[trigger] items[i],
        items[i + 1],
    ) by {
        assert(items[i] == longer[from + i]);
        assert(items[i + 1] == longer[from + i + 1]);
    }
    assert(items.last() == longer[path.len() - 1]);
    assert(depends(deps, longer[path.len() - 1], longer[path.len() - 1 + 1]));
    assert(cycle(deps, items));
}

/// A path goes on to whatever its last item depends on.
proof fn lemma_chain_grows(deps: Seq<Seq<int>>, path: Seq<int>, item: int, k: int)
    requires
        deps_ok(deps),
        0 <= item < deps.len(),
        chain(deps, path.push(item)),
        0 <= k < deps[item].len(),
    ensures
        0 <= deps[item][k] < deps.len(),
        chain(deps, path.push(item).push(deps[item][k])),
{
    let longer = path.push(item);
    let next = longer.push(deps[item][k]);
    assert(0 <= deps[item][k] < deps.len());
    assert forall|i: int| 0 <= i < next.len() implies 0 <= #[trigger] next[i] < deps.len() by {
        if i < longer.len() {
            assert(next[i] == longer[i]);
        }
    }
    assert forall|i: int| 0 <= i < next.len() - 1 implies depends(
        deps,
        #[trigger] next[i],
        next[i + 1],
    ) by {
        assert(next[i] == longer[i]);
        if i < longer.len() - 1 {
            assert(next[i + 1] == longer[i + 1]);
        } else {
            assert(deps[item].contains(deps[item][k]));
        }
    }
}

/// An item can follow when everything it depends on is there.
proof fn lemma_one_more(deps: Seq<Seq<int>>, path: Seq<int>, done: Seq<int>, item: int)
    requires
        ordered(deps, done),
        0 <= item < deps.len(),
        !path.contains(item),
        forall|k: int| 0 <= k < deps[item].len() ==> done.contains(#[trigger] deps[item][k]),
        forall|i: int|
            0 <= i < path.push(item).len() ==> !done.contains(#[trigger] path.push(item)[i]),
    ensures
        ordered(deps, done.push(item)),
        done.push(item).contains(item),
        forall|i: int| 0 <= i < path.len() ==> !done.push(item).contains(#[trigger] path[i]),
{
    let after = done.push(item);
    assert(!done.contains(item)) by {
        assert(path.push(item)[path.len() as int] == item);
    }
    assert(after[after.len() - 1] == item);
    assert forall|i: int, j: int| 0 <= i < after.len() && 0 <= j < after.len() && i
        != j implies after[i] != after[j] by {
        if i < done.len() {
            assert(after[i] == done[i]);
        }
        if j < done.len() {
            assert(after[j] == done[j]);
        }
    }
    assert forall|i: int| 0 <= i < after.len() implies 0 <= #[trigger] after[i] < deps.len() by {
        if i < done.len() {
            assert(after[i] == done[i]);
        }
    }
    assert forall|i: int, on: int|
        0 <= i < after.len() && #[trigger] depends(deps, after[i], on) implies after.take(
        i,
    ).contains(on) by {
        if i < done.len() {
            assert(after[i] == done[i]);
            assert(after.take(i) =~= done.take(i));
        } else {
            assert(after.take(i) =~= done);
            let k = choose|k: int| 0 <= k < deps[item].len() && deps[item][k] == on;
            assert(done.contains(deps[item][k]));
        }
    }
    assert forall|i: int| 0 <= i < path.len() implies !after.contains(#[trigger] path[i]) by {
        assert(path.push(item)[i] == path[i]);
        assert(!done.contains(path[i]));
        if after.contains(path[i]) {
            let k = choose|k: int| 0 <= k < after.len() && after[k] == path[i];
            if k < done.len() {
                assert(done[k] == path[i]);
            }
        }
    }
}

/// The same of several items.
proof fn lemma_visit_all(deps: Seq<Seq<int>>, path: Seq<int>, done: Seq<int>, items: Seq<int>)
    requires
        deps_ok(deps),
        ordered(deps, done),
        path.no_duplicates(),
        forall|k: int|
            0 <= k < items.len() ==> {
                &&& 0 <= #[trigger] items[k] < deps.len()
                &&& chain(deps, path.push(items[k]))
            },
        forall|i: int| 0 <= i < path.len() ==> !done.contains(#[trigger] path[i]),
    ensures
        match visit_all(deps, path, done, items) {
            Ok(after) => {
                &&& ordered(deps, after)
                &&& done.is_prefix_of(after)
                &&& forall|k: int| 0 <= k < items.len() ==> after.contains(#[trigger] items[k])
                &&& forall|i: int| 0 <= i < path.len() ==> !after.contains(#[trigger] path[i])
            },
            Err(back) => exists|items: Seq<int>| #[trigger] cycle(deps, items) && items[0] == back,
        },
    decreases deps.len() - path.len(), 2int, items.len(),
{
    if items.len() > 0 {
        let front = items.drop_last();
        assert forall|k: int| 0 <= k < front.len() implies {
            &&& 0 <= #[trigger] front[k] < deps.len()
            &&& chain(deps, path.push(front[k]))
        } by {
            assert(front[k] == items[k]);
        }
        lemma_visit_all(deps, path, done, front);
        match visit_all(deps, path, done, front) {
            Ok(between) => {
                assert(items.last() == items[items.len() - 1]);
                lemma_visit(deps, path, between, items.last());
                match visit(deps, path, between, items.last()) {
                    Ok(after) => {
                        assert forall|k: int| 0 <= k < items.len() implies after.contains(
                            #[trigger] items[k],
                        ) by {
                            if k < front.len() {
                                assert(front[k] == items[k]);
                                assert(between.contains(front[k]));
                                let j = choose|j: int|
                                    0 <= j < between.len() && between[j] == front[k];
                                assert(after[j] == between[j]);
                            }
                        }
                    },
                    Err(_) => {},
                }
            },
            Err(_) => {},
        }
    }
}

/// A path of different items does not hold more than there are.
proof fn lemma_path_is_short(deps: Seq<Seq<int>>, path: Seq<int>, item: int)
    requires
        path.no_duplicates(),
        !path.contains(item),
        chain(deps, path.push(item)),
    ensures
        path.len() < deps.len(),
{
    let longer = path.push(item);
    assert(longer.no_duplicates());
    let range = vstd::set_lib::set_int_range(0, deps.len() as int);
    vstd::set_lib::lemma_int_range(0, deps.len() as int);
    longer.unique_seq_to_set();
    assert(longer.to_set().subset_of(range)) by {
        assert forall|i: int| longer.to_set().contains(i) implies range.contains(i) by {
            let k = choose|k: int| 0 <= k < longer.len() && longer[k] == i;
            assert(0 <= longer[k] < deps.len());
        }
    }
    vstd::set_lib::lemma_len_subset(longer.to_set(), range);
}

/// An order that was found holds every item once, each behind everything it depends on.
pub proof fn law_an_order_puts_dependencies_first(deps: Seq<Seq<int>>)
    requires
        deps_ok(deps),
        in_order(deps) is Ok,
    ensures
        ordered(deps, in_order(deps)->Ok_0),
        forall|i: int| 0 <= i < deps.len() ==> in_order(deps)->Ok_0.contains(i),
        in_order(deps)->Ok_0.len() == deps.len(),
{
    let items = below(deps.len());
    let none: Seq<int> = Seq::empty();
    assert forall|k: int| 0 <= k < items.len() implies {
        &&& 0 <= #[trigger] items[k] < deps.len()
        &&& chain(deps, none.push(items[k]))
    } by {
        assert(none.push(items[k])[0] == k);
    }
    lemma_visit_all(deps, none, none, items);
    let done = in_order(deps)->Ok_0;
    assert forall|i: int| 0 <= i < deps.len() implies done.contains(i) by {
        assert(items[i] == i);
    }
    let range = vstd::set_lib::set_int_range(0, deps.len() as int);
    vstd::set_lib::lemma_int_range(0, deps.len() as int);
    done.unique_seq_to_set();
    assert(done.to_set() =~= range) by {
        assert forall|i: int| done.to_set().contains(i) implies range.contains(i) by {
            let k = choose|k: int| 0 <= k < done.len() && done[k] == i;
            assert(0 <= done[k] < deps.len());
        }
    }
}

/// Where no order was found there is a cycle, and the item that is named is on it.
pub proof fn law_a_failure_shows_a_cycle(deps: Seq<Seq<int>>)
    requires
        deps_ok(deps),
        in_order(deps) is Err,
    ensures
        exists|items: Seq<int>|
            #[trigger] cycle(deps, items) && items[0] == in_order(deps)->Err_0,
{
    let items = below(deps.len());
    let none: Seq<int> = Seq::empty();
    assert forall|k: int| 0 <= k < items.len() implies {
        &&& 0 <= #[trigger] items[k] < deps.len()
        &&& chain(deps, none.push(items[k]))
    } by {
        assert(none.push(items[k])[0] == k);
    }
    lemma_visit_all(deps, none, none, items);
}

/// The place of an item in an order.
spec fn place(done: Seq<int>, item: int) -> int {
    choose|k: int| 0 <= k < done.len() && done[k] == item
}

/// Along a chain the places in an order go down.
proof fn lemma_chain_goes_down(deps: Seq<Seq<int>>, done: Seq<int>, items: Seq<int>, to: int)
    requires
        ordered(deps, done),
        forall|i: int| 0 <= i < deps.len() ==> done.contains(i),
        chain(deps, items),
        0 <= to < items.len(),
    ensures
        done.contains(items[to]),
        done.contains(items[0]),
        place(done, items[to]) <= place(done, items[0]),
    decreases to,
{
    assert(0 <= items[0] < deps.len());
    assert(0 <= items[to] < deps.len());
    if to > 0 {
        lemma_chain_goes_down(deps, done, items, to - 1);
        assert(depends(deps, items[to - 1], items[to - 1 + 1]));
        lemma_before(deps, done, items[to - 1], items[to]);
    }
}

/// What an item depends on stands before it.
proof fn lemma_before(deps: Seq<Seq<int>>, done: Seq<int>, item: int, on: int)
    requires
        ordered(deps, done),
        done.contains(item),
        depends(deps, item, on),
    ensures
        done.contains(on),
        place(done, on) < place(done, item),
{
    let at = place(done, item);
    assert(0 <= at < done.len() && done[at] == item);
    assert(depends(deps, done[at], on));
    let front = done.take(at);
    assert(front.contains(on));
    let k = choose|k: int| 0 <= k < front.len() && front[k] == on;
    assert(done[k] == on);
    let found = place(done, on);
    assert(0 <= found < done.len() && done[found] == on);
    assert(found == k);
}

/// Where items depend on themselves, there is no order.
pub proof fn law_a_cycle_has_no_order(deps: Seq<Seq<int>>, items: Seq<int>)
    requires
        deps_ok(deps),
        cycle(deps, items),
    ensures
        in_order(deps) is Err,
{
    if in_order(deps) is Ok {
        law_an_order_puts_dependencies_first(deps);
        let done = in_order(deps)->Ok_0;
        lemma_chain_goes_down(deps, done, items, items.len() - 1);
        lemma_before(deps, done, items.last(), items[0]);
    }
}

/// What a list of lists says.
pub open spec fn deps_view(deps: Seq<Vec<usize>>) -> Seq<Seq<int>> {
    deps.map_values(|d: Vec<usize>| numbers(d@))
}

/// What a list of numbers says.
pub open spec fn numbers(list: Seq<usize>) -> Seq<int> {
    list.map_values(|n: usize| n as int)
}

/// Whether a number is in a list.
fn contains(list: &Vec<usize>, number: usize) -> (found: bool)
    ensures
        found == numbers(list@).contains(number as int),
{
    let mut i: usize = 0;
    while i < list.len()
        invariant
            i <= list@.len(),
            forall|k: int| 0 <= k < i ==> list@[k] != number,
        decreases list@.len() - i,
    {
        if list[i] == number {
            assert(numbers(list@)[i as int] == number);
            return true;
        }
        i += 1;
    }
    assert forall|k: int| 0 <= k < numbers(list@).len() implies numbers(list@)[k]
        != number as int by {
        assert(list@[k] != number);
    }
    false
}

/// What came of putting something in order.
pub open spec fn walk_view(done: Seq<usize>, back: Option<usize>) -> Walk {
    match back {
        Some(back) => Err(back as int),
        None => Ok(numbers(done)),
    }
}

/// Puts an item behind what it depends on. An item that depends on itself is handed back.
fn visit_item(
    deps: &Vec<Vec<usize>>,
    path: &mut Vec<usize>,
    done: &mut Vec<usize>,
    item: usize,
) -> (back: Option<usize>)
    requires
        deps_ok(deps_view(deps@)),
        item < deps@.len(),
        old(path)@.len() <= deps@.len(),
    ensures
        final(path)@ == old(path)@,
        walk_view(final(done)@, back) == visit(
            deps_view(deps@),
            numbers(old(path)@),
            numbers(old(done)@),
            item as int,
        ),
    decreases deps@.len() - old(path)@.len(),
{
    let ghost all = deps_view(deps@);
    let ghost start = numbers(done@);
    let ghost way = numbers(path@);
    let ghost whole = path@;
    if contains(done, item) {
        return None;
    }
    if contains(path, item) || path.len() >= deps.len() {
        return Some(item);
    }
    path.push(item);
    let ghost longer = numbers(path@);
    assert(longer =~= way.push(item as int));
    let ghost wanted = all[item as int];
    assert(wanted == numbers(deps@[item as int]@));
    let count: usize = deps[item].len();
    let mut i: usize = 0;
    assert(wanted.take(0) =~= Seq::empty());
    while i < count
        invariant
            i <= count == deps@[item as int]@.len(),
            item < deps@.len(),
            all == deps_view(deps@),
            wanted == all[item as int],
            wanted == numbers(deps@[item as int]@),
            deps_ok(all),
            whole == old(path)@,
            way == numbers(whole),
            start == numbers(old(done)@),
            !start.contains(item as int),
            !way.contains(item as int),
            way.len() < all.len(),
            path@ == whole.push(item),
            longer == numbers(path@),
            longer == way.push(item as int),
            visit_all(all, longer, start, wanted.take(i as int)) == Ok::<Seq<int>, int>(
                numbers(done@),
            ),
        decreases count - i,
    {
        let next: usize = deps[item][i];
        assert(wanted[i as int] == next);
        assert(all[item as int][i as int] == next);
        assert(wanted.take(i + 1).drop_last() =~= wanted.take(i as int));
        assert(wanted.take(i + 1).last() == next);
        let back = visit_item(deps, path, done, next);
        if let Some(back) = back {
            proof {
                lemma_failure_stays(all, longer, start, wanted, i + 1);
            }
            let _ = path.pop();
            assert(path@ =~= whole);
            return Some(back);
        }
        i += 1;
    }
    assert(wanted.take(i as int) =~= wanted);
    let _ = path.pop();
    assert(path@ =~= whole);
    let ghost between = numbers(done@);
    done.push(item);
    assert(numbers(done@) =~= between.push(item as int));
    None
}

/// A failure on some of the items is the failure on all of them.
proof fn lemma_failure_stays(
    deps: Seq<Seq<int>>,
    path: Seq<int>,
    done: Seq<int>,
    items: Seq<int>,
    count: int,
)
    requires
        0 <= count <= items.len(),
        visit_all(deps, path, done, items.take(count)) is Err,
    ensures
        visit_all(deps, path, done, items) == visit_all(deps, path, done, items.take(count)),
    decreases items.len() - count,
{
    if count == items.len() {
        assert(items.take(count) =~= items);
    } else {
        assert(items.take(count + 1).drop_last() =~= items.take(count));
        lemma_failure_stays(deps, path, done, items, count + 1);
    }
}

/// Puts all items in order. An item that depends on itself is the error.
pub fn order(deps: &Vec<Vec<usize>>) -> (result: Result<Vec<usize>, usize>)
    requires
        deps_ok(deps_view(deps@)),
    ensures
        match result {
            Ok(done) => in_order(deps_view(deps@)) == Ok::<Seq<int>, int>(numbers(done@)),
            Err(back) => in_order(deps_view(deps@)) == Err::<Seq<int>, int>(back as int),
        },
{
    let ghost all = deps_view(deps@);
    let ghost items = below(all.len());
    let ghost none: Seq<int> = Seq::empty();
    let mut path: Vec<usize> = Vec::new();
    let mut done: Vec<usize> = Vec::new();
    let mut i: usize = 0;
    assert(items.take(0) =~= Seq::empty());
    assert(numbers(done@) =~= none);
    assert(numbers(path@) =~= none);
    while i < deps.len()
        invariant
            i <= deps@.len(),
            all == deps_view(deps@),
            items == below(all.len()),
            deps_ok(all),
            none == Seq::<int>::empty(),
            path@.len() == 0,
            numbers(path@) == none,
            visit_all(all, none, none, items.take(i as int)) == Ok::<Seq<int>, int>(
                numbers(done@),
            ),
        decreases deps@.len() - i,
    {
        assert(items.take(i + 1).drop_last() =~= items.take(i as int));
        assert(items.take(i + 1).last() == i);
        if let Some(back) = visit_item(deps, &mut path, &mut done, i) {
            proof {
                lemma_failure_stays(all, none, none, items, i + 1);
            }
            return Err(back);
        }
        i += 1;
    }
    assert(items.take(i as int) =~= items);
    Ok(done)
}

} // verus!
