//! The attribute that calls a function when a signal comes.

#[allow(unused_imports)]
use crate::macros::shape::{fault, FaultView};
use crate::macros::shape::{Fault, Input, Spot, TypeShape};
use crate::signal::signals::Signal;
#[allow(unused_imports)]
use crate::text::lowered;
use crate::text::{lowercase, same_text};
use vstd::prelude::*;

verus! {

/// The signal that a name stands for, if it can be listened to.
pub open spec fn signal_named(name: Seq<char>) -> Option<Signal> {
    if name == "SIGINT"@ {
        Some(Signal::Interrupt)
    } else if name == "SIGTERM"@ {
        Some(Signal::Terminate)
    } else if name == "SIGHUP"@ {
        Some(Signal::Hangup)
    } else if name == "SIGQUIT"@ {
        Some(Signal::Quit)
    } else if name == "SIGUSR1"@ {
        Some(Signal::User1)
    } else if name == "SIGUSR2"@ {
        Some(Signal::User2)
    } else {
        None
    }
}

/// Whether a name stands for a signal that the process does not survive.
pub open spec fn is_fatal(name: Seq<char>) -> bool {
    name == "SIGSEGV"@ || name == "SIGABRT"@ || name == "SIGBUS"@ || name == "SIGILL"@ || name
        == "SIGFPE"@
}

/// The signal that a name stands for, or what is wrong with it.
pub open spec fn signal_of(name: Seq<char>) -> Result<Signal, FaultView> {
    if is_fatal(name) {
        Err(
            fault(
                Spot::Argument(0),
                "致命信号由 rskynet 崩溃处理器独占，不能注册业务回调"@,
            ),
        )
    } else {
        match signal_named(name) {
            Some(signal) => Ok(signal),
            None => Err(
                fault(
                    Spot::Argument(0),
                    "只支持 SIGINT、SIGTERM、SIGHUP、SIGQUIT、SIGUSR1、SIGUSR2"@,
                ),
            ),
        }
    }
}

/// Finds the signal that a name stands for. Signals that the process does not survive are left to
/// the reports of crashes.
pub fn read_signal(name: &str) -> (result: Result<Signal, Fault>)
    ensures
        match signal_of(name@) {
            Ok(signal) => result == Ok::<Signal, Fault>(signal),
            Err(view) => result matches Err(found) && found@ == view,
        },
{
    if same_text(name, "SIGSEGV") || same_text(name, "SIGABRT") || same_text(name, "SIGBUS")
        || same_text(name, "SIGILL") || same_text(name, "SIGFPE") {
        return Err(
            Fault::new(
                Spot::Argument(0),
                "致命信号由 rskynet 崩溃处理器独占，不能注册业务回调",
            ),
        );
    }
    if same_text(name, "SIGINT") {
        return Ok(Signal::Interrupt);
    }
    if same_text(name, "SIGTERM") {
        return Ok(Signal::Terminate);
    }
    if same_text(name, "SIGHUP") {
        return Ok(Signal::Hangup);
    }
    if same_text(name, "SIGQUIT") {
        return Ok(Signal::Quit);
    }
    if same_text(name, "SIGUSR1") {
        return Ok(Signal::User1);
    }
    if same_text(name, "SIGUSR2") {
        return Ok(Signal::User2);
    }
    Err(
        Fault::new(
            Spot::Argument(0),
            "只支持 SIGINT、SIGTERM、SIGHUP、SIGQUIT、SIGUSR1、SIGUSR2",
        ),
    )
}

/// A function that is to be called when a signal comes.
#[derive(Debug)]
pub struct Callback {
    pub is_async: bool,
    pub is_unsafe: bool,
    pub has_generics: bool,
    pub has_output: bool,
    pub inputs: Vec<Input>,
}

/// What is wrong with a function that is to be called when a signal comes. It takes `&Ctx` and
/// gives nothing back.
pub open spec fn callback_fault(callback: Callback) -> Option<FaultView> {
    let inputs = callback.inputs@;
    if callback.is_async {
        Some(fault(Spot::Method(0), "信号回调不能是 async fn"@))
    } else if callback.is_unsafe {
        Some(fault(Spot::Method(0), "信号回调不能是 unsafe fn"@))
    } else if callback.has_generics {
        Some(fault(Spot::Generics, "信号回调不能带泛型"@))
    } else if callback.has_output {
        Some(fault(Spot::Output, "信号回调必须返回 ()"@))
    } else if inputs.len() != 1 {
        Some(fault(Spot::Inputs(0), "信号回调必须只接收一个 &Ctx"@))
    } else {
        match inputs[0] {
            Input::Typed(shape) => match shape {
                TypeShape::Reference { mutable, last } => if mutable {
                    Some(fault(Spot::Parameter(0, 0), "信号回调参数必须是共享引用 &Ctx"@))
                } else if last is Some && last->Some_0@ == "Ctx"@ {
                    None
                } else {
                    Some(fault(Spot::Parameter(0, 0), "信号回调参数必须是 &Ctx"@))
                },
                _ => Some(fault(Spot::Parameter(0, 0), "信号回调参数必须是 &Ctx"@)),
            },
            _ => Some(fault(Spot::Inputs(0), "信号回调必须是自由函数 fn(&Ctx)"@)),
        }
    }
}

/// Checks a function that is to be called when a signal comes.
pub fn validate(callback: &Callback) -> (result: Result<(), Fault>)
    ensures
        match callback_fault(*callback) {
            Some(view) => result matches Err(found) && found@ == view,
            None => result is Ok,
        },
{
    if callback.is_async {
        return Err(Fault::new(Spot::Method(0), "信号回调不能是 async fn"));
    }
    if callback.is_unsafe {
        return Err(Fault::new(Spot::Method(0), "信号回调不能是 unsafe fn"));
    }
    if callback.has_generics {
        return Err(Fault::new(Spot::Generics, "信号回调不能带泛型"));
    }
    if callback.has_output {
        return Err(Fault::new(Spot::Output, "信号回调必须返回 ()"));
    }
    if callback.inputs.len() != 1 {
        return Err(Fault::new(Spot::Inputs(0), "信号回调必须只接收一个 &Ctx"));
    }
    match &callback.inputs[0] {
        Input::Typed(TypeShape::Reference { mutable, last }) => {
            if *mutable {
                return Err(
                    Fault::new(Spot::Parameter(0, 0), "信号回调参数必须是共享引用 &Ctx"),
                );
            }
            match last {
                Some(name) => {
                    if same_text(name.as_str(), "Ctx") {
                        return Ok(());
                    }
                },
                None => {},
            }
            Err(Fault::new(Spot::Parameter(0, 0), "信号回调参数必须是 &Ctx"))
        },
        Input::Typed(_) => Err(Fault::new(Spot::Parameter(0, 0), "信号回调参数必须是 &Ctx")),
        _ => Err(Fault::new(Spot::Inputs(0), "信号回调必须是自由函数 fn(&Ctx)")),
    }
}

/// What the function is called through. The name holds that of the signal and of the function.
pub fn wrapper_name(signal: &str, function: &str) -> (name: String)
    ensures
        name@ == "__rskynet_signal_callback_"@ + lowered(signal@) + "_"@ + function@,
{
    let mut name = "__rskynet_signal_callback_".to_owned();
    name.append(lowercase(signal).as_str());
    name.append("_");
    name.append(function);
    name
}

/// The symbol that a program has once for each signal, so that two functions for one signal do not
/// link.
pub fn symbol_name(signal: &str) -> (name: String)
    ensures
        name@ == "__rskynet_signal_"@ + signal@,
{
    let mut name = "__rskynet_signal_".to_owned();
    name.append(signal);
    name
}

/// Two functions for different signals have different symbols.
pub proof fn law_symbols_differ(first: Seq<char>, second: Seq<char>)
    requires
        first != second,
    ensures
        "__rskynet_signal_"@ + first != "__rskynet_signal_"@ + second,
{
    let before = "__rskynet_signal_"@;
    assert((before + first).skip(before.len() as int) =~= first);
    assert((before + second).skip(before.len() as int) =~= second);
}

} // verus!
