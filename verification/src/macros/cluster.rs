//! The attributes for messages and functions that other nodes use.

#[allow(unused_imports)]
use crate::macros::shape::{fault, FaultView};
use crate::macros::shape::{Fault, Input, Spot};
use crate::text::same_text;
use vstd::prelude::*;

verus! {

/// An argument of the attribute of a message.
#[derive(Debug, Clone, Copy, PartialEq, Eq, Structural)]
pub enum MessageArg {
    Number,
    Crate,
}

/// The arguments of the attribute of a message.
#[derive(Debug, Clone, Copy, PartialEq, Eq, Structural)]
pub struct MessageArgs {
    pub has_number: bool,
    pub has_crate: bool,
}

impl MessageArgs {
    /// What follows an argument.
    pub open spec fn after(self, place: usize, key: Seq<char>) -> Result<
        (MessageArg, MessageArgs),
        FaultView,
    > {
        if key == "type_id"@ {
            if self.has_number {
                Err(fault(Spot::Argument(place), "`type_id` 写了两遍"@))
            } else {
                Ok((MessageArg::Number, MessageArgs { has_number: true, ..self }))
            }
        } else if key == "crate"@ {
            if self.has_crate {
                Err(fault(Spot::Argument(place), "`crate` 写了两遍"@))
            } else {
                Ok((MessageArg::Crate, MessageArgs { has_crate: true, ..self }))
            }
        } else {
            Err(fault(Spot::Argument(place), "只认 `type_id` 与 `crate`"@))
        }
    }

    /// Begins with a message. A message with type parameters has no number of its own.
    pub fn new(has_generics: bool) -> (result: Result<MessageArgs, Fault>)
        ensures
            has_generics ==> (result matches Err(found) && found@ == fault(
                Spot::Generics,
                "泛型消息不能自动实现 ClusterMessage"@,
            )),
            !has_generics ==> (result matches Ok(args) && !args.has_number && !args.has_crate),
    {
        if has_generics {
            return Err(Fault::new(Spot::Generics, "泛型消息不能自动实现 ClusterMessage"));
        }
        Ok(MessageArgs { has_number: false, has_crate: false })
    }

    /// Takes an argument by its name.
    pub fn take(&mut self, place: usize, key: &str) -> (result: Result<MessageArg, Fault>)
        ensures
            match old(self).after(place, key@) {
                Ok((arg, next)) => result == Ok::<MessageArg, Fault>(arg) && *final(self) == next,
                Err(view) => (result matches Err(found) && found@ == view) && *final(self)
                    == *old(self),
            },
    {
        if same_text(key, "type_id") {
            if self.has_number {
                return Err(Fault::new(Spot::Argument(place), "`type_id` 写了两遍"));
            }
            self.has_number = true;
            return Ok(MessageArg::Number);
        }
        if same_text(key, "crate") {
            if self.has_crate {
                return Err(Fault::new(Spot::Argument(place), "`crate` 写了两遍"));
            }
            self.has_crate = true;
            return Ok(MessageArg::Crate);
        }
        Err(Fault::new(Spot::Argument(place), "只认 `type_id` 与 `crate`"))
    }
}

/// What is wrong with the number of a message. It has one, and it is not 0.
pub open spec fn number_of(number: Option<u32>) -> Result<u32, FaultView> {
    match number {
        None => Err(fault(Spot::Attribute, "缺少 `#[cluster(type_id = ...)]`"@)),
        Some(number) => if number == 0 {
            Err(fault(Spot::Argument(0), "ClusterMessage TYPE_ID 不能为 0"@))
        } else {
            Ok(number)
        },
    }
}

/// Checks the number of a message.
pub fn check_number(number: Option<u32>) -> (result: Result<u32, Fault>)
    ensures
        match number_of(number) {
            Ok(number) => result == Ok::<u32, Fault>(number),
            Err(view) => result matches Err(found) && found@ == view,
        },
{
    match number {
        None => Err(Fault::new(Spot::Attribute, "缺少 `#[cluster(type_id = ...)]`")),
        Some(number) => if number == 0 {
            Err(Fault::new(Spot::Argument(0), "ClusterMessage TYPE_ID 不能为 0"))
        } else {
            Ok(number)
        },
    }
}

/// A type argument.
#[derive(Debug)]
pub enum TypeArg {
    /// A path, with its last part.
    Path(String),
    /// `()`.
    Unit,
    /// Another type.
    Type,
    /// No type, but a lifetime or a constant.
    Other,
}

/// What a function that other nodes call gives back.
#[derive(Debug)]
pub enum Returned {
    Nothing,
    /// A path, with its last part and its arguments, if it has any in angle brackets.
    Path { last: String, args: Option<Vec<TypeArg>> },
    Other,
}

/// A function that other nodes call.
#[derive(Debug)]
pub struct Remote {
    pub is_async: bool,
    pub has_generics: bool,
    pub inputs: Vec<Input>,
    pub output: Returned,
}

/// Whether a type argument is a path that ends in this.
pub open spec fn ends_in(arg: TypeArg, name: Seq<char>) -> bool {
    match arg {
        TypeArg::Path(last) => last@ == name,
        _ => false,
    }
}

/// Whether the caller waits for nothing, or what is wrong with what is given back. It is a
/// `Result` whose error is a `String`.
pub open spec fn answer_of(output: Returned) -> Result<bool, FaultView> {
    match output {
        Returned::Path { last, args } => if last@ != "Result"@ {
            Err(fault(Spot::Output, "cluster handler 必须返回 Result<Response, String>"@))
        } else {
            match args {
                None => Err(fault(Spot::Output, "Result 必须写明类型参数"@)),
                Some(args) => if args@.len() != 2 {
                    Err(fault(Spot::Output, "Result 必须是 Result<Response, String>"@))
                } else if args@[0] is Other {
                    Err(fault(Spot::Output, "Result 的第一个参数必须是类型"@))
                } else if !ends_in(args@[1], "String"@) {
                    Err(fault(Spot::Output, "Result 的错误类型必须是 String"@))
                } else {
                    Ok(args@[0] is Unit)
                },
            }
        },
        _ => Err(fault(Spot::Output, "cluster handler 必须返回 Result<Response, String>"@)),
    }
}

/// Whether the caller waits for nothing, or what is wrong with the function.
pub open spec fn remote_of(remote: Remote) -> Result<bool, FaultView> {
    if !remote.is_async {
        Err(fault(Spot::Method(0), "cluster handler 必须是 async fn"@))
    } else if remote.has_generics {
        Err(fault(Spot::Generics, "cluster handler 不能是泛型函数"@))
    } else if remote.inputs@.len() != 2 {
        Err(
            fault(
                Spot::Inputs(0),
                "cluster handler 必须接收 (RemoteContext, Request) 两个参数"@,
            ),
        )
    } else if !(remote.inputs@[0] is Typed) {
        Err(fault(Spot::Attribute, "cluster handler 不能有 self 参数"@))
    } else if !(remote.inputs@[1] is Typed) {
        Err(fault(Spot::Attribute, "cluster handler 缺少请求参数"@))
    } else {
        answer_of(remote.output)
    }
}

/// Checks what a function that other nodes call gives back.
pub fn read_answer(output: &Returned) -> (result: Result<bool, Fault>)
    ensures
        match answer_of(*output) {
            Ok(found) => result == Ok::<bool, Fault>(found),
            Err(view) => result matches Err(found) && found@ == view,
        },
{
    match output {
        Returned::Path { last, args } => {
            if !same_text(last.as_str(), "Result") {
                return Err(
                    Fault::new(Spot::Output, "cluster handler 必须返回 Result<Response, String>"),
                );
            }
            match args {
                None => Err(Fault::new(Spot::Output, "Result 必须写明类型参数")),
                Some(args) => {
                    if args.len() != 2 {
                        return Err(
                            Fault::new(Spot::Output, "Result 必须是 Result<Response, String>"),
                        );
                    }
                    let is_type = match &args[0] {
                        TypeArg::Other => false,
                        _ => true,
                    };
                    if !is_type {
                        return Err(Fault::new(Spot::Output, "Result 的第一个参数必须是类型"));
                    }
                    let is_text = match &args[1] {
                        TypeArg::Path(last) => same_text(last.as_str(), "String"),
                        _ => false,
                    };
                    if !is_text {
                        return Err(Fault::new(Spot::Output, "Result 的错误类型必须是 String"));
                    }
                    let is_unit = match &args[0] {
                        TypeArg::Unit => true,
                        _ => false,
                    };
                    Ok(is_unit)
                },
            }
        },
        _ => Err(Fault::new(Spot::Output, "cluster handler 必须返回 Result<Response, String>")),
    }
}

/// Whether a parameter is something else than `self`.
fn is_typed(input: &Input) -> (typed: bool)
    ensures
        typed == (input is Typed),
{
    match input {
        Input::Typed(_) => true,
        _ => false,
    }
}

/// Checks a function that other nodes call, and says whether the caller waits for nothing.
pub fn read_remote(remote: &Remote) -> (result: Result<bool, Fault>)
    ensures
        match remote_of(*remote) {
            Ok(found) => result == Ok::<bool, Fault>(found),
            Err(view) => result matches Err(found) && found@ == view,
        },
{
    if !remote.is_async {
        return Err(Fault::new(Spot::Method(0), "cluster handler 必须是 async fn"));
    }
    if remote.has_generics {
        return Err(Fault::new(Spot::Generics, "cluster handler 不能是泛型函数"));
    }
    if remote.inputs.len() != 2 {
        return Err(
            Fault::new(
                Spot::Inputs(0),
                "cluster handler 必须接收 (RemoteContext, Request) 两个参数",
            ),
        );
    }
    if !is_typed(&remote.inputs[0]) {
        return Err(Fault::new(Spot::Attribute, "cluster handler 不能有 self 参数"));
    }
    if !is_typed(&remote.inputs[1]) {
        return Err(Fault::new(Spot::Attribute, "cluster handler 缺少请求参数"));
    }
    read_answer(&remote.output)
}

/// What registers a function that other nodes call.
pub fn register_name(function: &str) -> (name: String)
    ensures
        name@ == "__rskynet_cluster_register_"@ + function@,
{
    let mut name = "__rskynet_cluster_register_".to_owned();
    name.append(function);
    name
}

} // verus!
