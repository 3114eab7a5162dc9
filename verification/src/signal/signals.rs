//! Signals to the process: which are watched, and what follows when one comes.

#[allow(unused_imports)]
use crate::places::{first_place, lemma_first_place, lemma_first_place_is};
use vstd::prelude::*;

verus! {

/// A signal to the process.
#[derive(Debug, Clone, Copy, PartialEq, Eq, Structural, Hash)]
pub enum Signal {
    Interrupt,
    Terminate,
    Hangup,
    Quit,
    User1,
    User2,
}

impl Signal {
    /// What the signal is called.
    pub open spec fn called(self) -> Seq<char> {
        match self {
            Signal::Interrupt => "Interrupt"@,
            Signal::Terminate => "Terminate"@,
            Signal::Hangup => "Hangup"@,
            Signal::Quit => "Quit"@,
            Signal::User1 => "User1"@,
            Signal::User2 => "User2"@,
        }
    }

    /// What the signal is called.
    pub fn name(self) -> (name: &'static str)
        ensures
            name@ == self.called(),
    {
        match self {
            Signal::Interrupt => "Interrupt",
            Signal::Terminate => "Terminate",
            Signal::Hangup => "Hangup",
            Signal::Quit => "Quit",
            Signal::User1 => "User1",
            Signal::User2 => "User2",
        }
    }
}

/// Something to be called when a signal comes. Callbacks are told apart by number.
#[derive(Debug)]
pub struct AutoSignal {
    pub signal: Signal,
    pub source: String,
    pub callback: usize,
}

impl AutoSignal {
    /// Something to be called when a signal comes.
    pub fn new(signal: Signal, source: &str, callback: usize) -> (auto: AutoSignal)
        ensures
            auto.signal == signal,
            auto.source@ == source@,
            auto.callback == callback,
    {
        AutoSignal { signal, source: source.to_owned(), callback }
    }
}

/// The signals that something is to be called for.
pub open spec fn signals_of(registered: Seq<AutoSignal>) -> Seq<Signal> {
    registered.map_values(|a: AutoSignal| a.signal)
}

/// Whether a signal is this one.
pub open spec fn is_signal(signal: Signal) -> spec_fn(Signal) -> bool {
    |s: Signal| s == signal
}

/// The place of what is called for a signal, or the length where nothing is.
pub open spec fn callback_place(registered: Seq<AutoSignal>, signal: Signal) -> int {
    first_place(signals_of(registered), is_signal(signal))
}

/// The place of what is called for a signal.
pub fn registration(registered: &Vec<AutoSignal>, signal: Signal) -> (place: Option<usize>)
    ensures
        match place {
            Some(place) => place == callback_place(registered@, signal) && place < registered@.len()
                && registered@[place as int].signal == signal,
            None => callback_place(registered@, signal) == registered@.len(),
        },
{
    let ghost all = signals_of(registered@);
    let ghost holds = is_signal(signal);
    let mut i: usize = 0;
    while i < registered.len() && registered[i].signal != signal
        invariant
            i <= registered@.len(),
            all == signals_of(registered@),
            holds == is_signal(signal),
            forall|k: int| 0 <= k < i ==> !holds(#[trigger] all[k]),
        decreases registered@.len() - i,
    {
        assert(all[i as int] == registered@[i as int].signal);
        i += 1;
    }
    proof {
        if i < registered@.len() {
            assert(holds(all[i as int]));
        }
        lemma_first_place_is(all, holds, i as int);
    }
    if i < registered.len() {
        Some(i)
    } else {
        None
    }
}

/// Whether the node is shut down where nothing else is called for a signal.
pub open spec fn shuts_down(registered: Seq<AutoSignal>, signal: Signal) -> bool {
    (signal is Interrupt || signal is Terminate) && callback_place(registered, signal)
        == registered.len()
}

/// Whether the node is shut down by a signal: an interrupt and a request to terminate do that,
/// unless something else is called for them.
pub fn has_default_shutdown(registered: &Vec<AutoSignal>, signal: Signal) -> (shutdown: bool)
    ensures
        shutdown == shuts_down(registered@, signal),
{
    let usual = match signal {
        Signal::Interrupt => true,
        Signal::Terminate => true,
        _ => false,
    };
    usual && registration(registered, signal).is_none()
}

/// What follows when a signal comes.
#[derive(Debug)]
pub enum Reaction {
    /// This is called.
    Call(usize),
    /// The node is shut down, and this is logged.
    Abort(String),
    Nothing,
}

/// What follows when a signal comes.
#[verifier::ext_equal]
pub enum ReactionView {
    Call(usize),
    Abort(Seq<char>),
    Nothing,
}

impl View for Reaction {
    type V = ReactionView;

    open spec fn view(&self) -> ReactionView {
        match self {
            Reaction::Call(callback) => ReactionView::Call(*callback),
            Reaction::Abort(text) => ReactionView::Abort(text@),
            Reaction::Nothing => ReactionView::Nothing,
        }
    }
}

/// What follows when a signal comes.
pub open spec fn reaction_to(registered: Seq<AutoSignal>, signal: Signal) -> ReactionView {
    let place = callback_place(registered, signal);
    if place < registered.len() {
        ReactionView::Call(registered[place].callback)
    } else if signal is Interrupt || signal is Terminate {
        ReactionView::Abort("收到进程信号 "@ + signal.called() + "，执行默认 abort"@)
    } else {
        ReactionView::Nothing
    }
}

/// Settles what follows when a signal comes.
pub fn dispatch(registered: &Vec<AutoSignal>, signal: Signal) -> (reaction: Reaction)
    ensures
        ({
            let place = callback_place(registered@, signal);
            if place < registered@.len() {
                reaction matches Reaction::Call(callback) && callback
                    == registered@[place].callback
            } else if signal is Interrupt || signal is Terminate {
                reaction matches Reaction::Abort(text) && text@ == "收到进程信号 "@
                    + signal.called() + "，执行默认 abort"@
            } else {
                reaction is Nothing
            }
        }),
        reaction@ == reaction_to(registered@, signal),
{
    match registration(registered, signal) {
        Some(place) => Reaction::Call(registered[place].callback),
        None => if has_default_shutdown(registered, signal) {
            let mut text = "收到进程信号 ".to_owned();
            text.append(signal.name());
            text.append("，执行默认 abort");
            Reaction::Abort(text)
        } else {
            Reaction::Nothing
        },
    }
}

/// The numbers that the system has for the signals.
#[derive(Debug, Clone, Copy)]
pub struct SignalNumbers {
    pub interrupt: i32,
    pub terminate: i32,
    pub hangup: i32,
    pub quit: i32,
    pub user1: i32,
    pub user2: i32,
}

impl SignalNumbers {
    /// The numbers are different.
    pub open spec fn wf(self) -> bool {
        forall|first: Signal, second: Signal|
            self.numbered(first) == self.numbered(second) ==> first == second
    }

    /// The number of a signal.
    pub open spec fn numbered(self, signal: Signal) -> i32 {
        match signal {
            Signal::Interrupt => self.interrupt,
            Signal::Terminate => self.terminate,
            Signal::Hangup => self.hangup,
            Signal::Quit => self.quit,
            Signal::User1 => self.user1,
            Signal::User2 => self.user2,
        }
    }

    /// The signal that has a number, if one does. Where two have the same number, it is the one
    /// that stands first.
    pub open spec fn meant(self, number: i32) -> Option<Signal> {
        if number == self.interrupt {
            Some(Signal::Interrupt)
        } else if number == self.terminate {
            Some(Signal::Terminate)
        } else if number == self.hangup {
            Some(Signal::Hangup)
        } else if number == self.quit {
            Some(Signal::Quit)
        } else if number == self.user1 {
            Some(Signal::User1)
        } else if number == self.user2 {
            Some(Signal::User2)
        } else {
            None
        }
    }

    /// The number of a signal.
    pub fn number(&self, signal: Signal) -> (number: i32)
        ensures
            number == self.numbered(signal),
    {
        match signal {
            Signal::Interrupt => self.interrupt,
            Signal::Terminate => self.terminate,
            Signal::Hangup => self.hangup,
            Signal::Quit => self.quit,
            Signal::User1 => self.user1,
            Signal::User2 => self.user2,
        }
    }

    /// The signal that has a number.
    pub fn signal(&self, number: i32) -> (signal: Option<Signal>)
        ensures
            signal == self.meant(number),
    {
        if number == self.interrupt {
            Some(Signal::Interrupt)
        } else if number == self.terminate {
            Some(Signal::Terminate)
        } else if number == self.hangup {
            Some(Signal::Hangup)
        } else if number == self.quit {
            Some(Signal::Quit)
        } else if number == self.user1 {
            Some(Signal::User1)
        } else if number == self.user2 {
            Some(Signal::User2)
        } else {
            None
        }
    }

    /// The numbers that are watched: those of an interrupt and of a request to terminate, and
    /// those that something is to be called for, each once.
    pub open spec fn watching(self, signals: Seq<Signal>) -> Seq<i32>
        decreases signals.len(),
    {
        if signals.len() == 0 {
            seq![self.interrupt, self.terminate]
        } else {
            let before = self.watching(signals.drop_last());
            let number = self.numbered(signals.last());
            if before.contains(number) {
                before
            } else {
                before.push(number)
            }
        }
    }

    /// The numbers that are watched.
    pub fn watched(&self, registered: &Vec<AutoSignal>) -> (numbers: Vec<i32>)
        ensures
            numbers@ == self.watching(signals_of(registered@)),
    {
        let ghost all = signals_of(registered@);
        let mut numbers: Vec<i32> = Vec::new();
        numbers.push(self.interrupt);
        numbers.push(self.terminate);
        let mut i: usize = 0;
        assert(all.take(0) =~= Seq::empty());
        assert(numbers@ =~= seq![self.interrupt, self.terminate]);
        while i < registered.len()
            invariant
                i <= registered@.len(),
                all == signals_of(registered@),
                numbers@ == self.watching(all.take(i as int)),
            decreases registered@.len() - i,
        {
            assert(all.take(i + 1).drop_last() =~= all.take(i as int));
            assert(all.take(i + 1).last() == registered@[i as int].signal);
            let number: i32 = self.number(registered[i].signal);
            let mut k: usize = 0;
            while k < numbers.len() && numbers[k] != number
                invariant
                    k <= numbers@.len(),
                    forall|j: int| 0 <= j < k ==> #[trigger] numbers@[j] != number,
                decreases numbers@.len() - k,
            {
                k += 1;
            }
            if k == numbers.len() {
                assert(!numbers@.contains(number));
                numbers.push(number);
            } else {
                assert(numbers@[k as int] == number);
                assert(numbers@.contains(number));
            }
            i += 1;
        }
        assert(all.take(i as int) =~= all);
        numbers
    }
}

/// A signal that comes in under its number is that signal.
pub proof fn law_a_signal_is_known_by_its_number(numbers: SignalNumbers, signal: Signal)
    requires
        numbers.wf(),
    ensures
        numbers.meant(numbers.numbered(signal)) == Some(signal),
{
    assert(numbers.numbered(Signal::Interrupt) == numbers.interrupt);
    assert(numbers.numbered(Signal::Terminate) == numbers.terminate);
    assert(numbers.numbered(Signal::Hangup) == numbers.hangup);
    assert(numbers.numbered(Signal::Quit) == numbers.quit);
    assert(numbers.numbered(Signal::User1) == numbers.user1);
    assert(numbers.numbered(Signal::User2) == numbers.user2);
}

/// What something is to be called for is watched.
pub proof fn law_what_is_registered_is_watched(
    numbers: SignalNumbers,
    signals: Seq<Signal>,
    i: int,
)
    requires
        0 <= i < signals.len(),
    ensures
        numbers.watching(signals).contains(numbers.numbered(signals[i])),
    decreases signals.len(),
{
    let before = numbers.watching(signals.drop_last());
    let all = numbers.watching(signals);
    let number = numbers.numbered(signals.last());
    if !before.contains(number) {
        assert(all[all.len() - 1] == number);
    }
    if i < signals.len() - 1 {
        law_what_is_registered_is_watched(numbers, signals.drop_last(), i);
        let wanted = numbers.numbered(signals[i]);
        assert(signals.drop_last()[i] == signals[i]);
        let k = choose|k: int| 0 <= k < before.len() && before[k] == wanted;
        assert(all[k] == wanted);
    }
}

/// What is called when a signal comes was registered for that signal, and before anything else that
/// was; where something was, it is called and the node goes on.
pub proof fn law_a_signal_calls_what_is_registered_for_it(
    registered: Seq<AutoSignal>,
    signal: Signal,
    k: int,
)
    requires
        0 <= k < registered.len(),
        registered[k].signal == signal,
        forall|i: int| 0 <= i < k ==> (#[trigger] registered[i]).signal != signal,
    ensures
        reaction_to(registered, signal) == ReactionView::Call(registered[k].callback),
        !shuts_down(registered, signal),
{
    let signals = signals_of(registered);
    assert forall|i: int| 0 <= i < k implies !is_signal(signal)(#[trigger] signals[i]) by {
        assert(signals[i] == registered[i].signal);
    }
    assert(signals[k] == signal);
    lemma_first_place_is(signals, is_signal(signal), k);
}

/// Without anything registered for them an interrupt and a request to terminate shut the node down,
/// and no other signal does; what is said then holds the name of the signal.
pub proof fn law_only_requests_to_end_shut_down(registered: Seq<AutoSignal>, signal: Signal)
    requires
        forall|i: int| 0 <= i < registered.len() ==> (#[trigger] registered[i]).signal != signal,
    ensures
        shuts_down(registered, signal) <==> signal == Signal::Interrupt || signal
            == Signal::Terminate,
        reaction_to(registered, signal) is Abort <==> shuts_down(registered, signal),
        !shuts_down(registered, signal) ==> reaction_to(registered, signal) is Nothing,
        reaction_to(registered, signal) matches ReactionView::Abort(text) ==> exists|i: int|
            0 <= i && i + signal.called().len() <= text.len() && #[trigger] text.subrange(
                i,
                i + signal.called().len(),
            ) == signal.called(),
{
    let signals = signals_of(registered);
    assert forall|i: int| 0 <= i < signals.len() implies !is_signal(signal)(
        #[trigger] signals[i],
    ) by {
        assert(signals[i] == registered[i].signal);
    }
    lemma_first_place_is(signals, is_signal(signal), signals.len() as int);
    if let ReactionView::Abort(text) = reaction_to(registered, signal) {
        let start = ("收到进程信号 "@).len() as int;
        assert(text.subrange(start, start + signal.called().len()) =~= signal.called());
    }
}

/// Every signal that something follows is watched, and no signal that nothing follows.
pub proof fn law_just_the_signals_that_matter_are_watched(
    numbers: SignalNumbers,
    registered: Seq<AutoSignal>,
    signal: Signal,
)
    requires
        numbers.wf(),
    ensures
        numbers.watching(signals_of(registered)).contains(numbers.numbered(signal)) <==> !(
        reaction_to(registered, signal) is Nothing) || signal == Signal::Interrupt || signal
            == Signal::Terminate,
        numbers.watching(signals_of(registered)).no_duplicates(),
{
    let signals = signals_of(registered);
    lemma_watching(numbers, signals, signal);
    lemma_first_place(signals, is_signal(signal));
    let place = callback_place(registered, signal);
    if place < signals.len() {
        assert(signals[place] == signal);
    } else if signals.contains(signal) {
        let i = choose|i: int| 0 <= i < signals.len() && signals[i] == signal;
        assert(is_signal(signal)(signals[i]));
    }
}

proof fn lemma_watching(numbers: SignalNumbers, signals: Seq<Signal>, signal: Signal)
    requires
        numbers.wf(),
    ensures
        numbers.watching(signals).contains(numbers.numbered(signal)) <==> signals.contains(signal)
            || signal == Signal::Interrupt || signal == Signal::Terminate,
        numbers.watching(signals).no_duplicates(),
    decreases signals.len(),
{
    if signals.len() > 0 {
        let before = signals.drop_last();
        lemma_watching(numbers, before, signal);
        let last = signals.last();
        let all = numbers.watching(signals);
        assert(signals.contains(signal) <==> before.contains(signal) || last == signal) by {
            if signals.contains(signal) {
                let i = choose|i: int| 0 <= i < signals.len() && signals[i] == signal;
                if i < before.len() {
                    assert(before[i] == signal);
                }
            }
            if before.contains(signal) {
                let i = choose|i: int| 0 <= i < before.len() && before[i] == signal;
                assert(signals[i] == signal);
            }
            assert(signals[signals.len() - 1] == last);
        }
        let number = numbers.numbered(last);
        let less = numbers.watching(before);
        if !less.contains(number) {
            assert(all == less.push(number));
            assert(all[less.len() as int] == number);
            if less.contains(numbers.numbered(signal)) {
                let i = choose|i: int|
                    0 <= i < less.len() && less[i] == numbers.numbered(signal);
                assert(all[i] == numbers.numbered(signal));
            }
            if all.contains(numbers.numbered(signal)) && !less.contains(
                numbers.numbered(signal),
            ) {
                let i = choose|i: int| 0 <= i < all.len() && all[i] == numbers.numbered(signal);
                assert(i == less.len()) by {
                    if i < less.len() {
                        assert(less[i] == numbers.numbered(signal));
                    }
                }
            }
        }
    } else {
        let all = numbers.watching(signals);
        assert(all[0] == numbers.interrupt);
        assert(all[1] == numbers.terminate);
        assert(numbers.interrupt == numbers.numbered(Signal::Interrupt));
        assert(numbers.terminate == numbers.numbered(Signal::Terminate));
    }
}

} // verus!
