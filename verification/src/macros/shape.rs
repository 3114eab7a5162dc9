//! The shape of code, as far as an attribute looks at it.

use crate::text::same_text;
use vstd::prelude::*;

verus! {

/// A type.
#[derive(Debug)]
pub enum TypeShape {
    /// A path. `last` is its last part, and `bare` says that no arguments stand there.
    Path { last: String, bare: bool },
    /// `()`.
    Unit,
    /// A reference. `last` is the last part of the path that it leads to, if it leads to one.
    Reference { mutable: bool, last: Option<String> },
    Other,
}

/// A parameter of a function.
#[derive(Debug)]
pub enum Input {
    /// `&self`.
    SharedSelf,
    /// `self` in another form.
    OtherSelf,
    Typed(TypeShape),
}

/// What is refused, and which part of the code is at fault.
#[derive(Debug)]
pub struct Fault {
    pub spot: Spot,
    pub text: String,
}

/// A part of the code. Methods, arguments and the like are told apart by their places.
#[derive(Debug, Clone, Copy, PartialEq, Eq, Structural)]
pub enum Spot {
    /// The attribute as a whole.
    Attribute,
    /// One of the arguments of the attribute.
    Argument(usize),
    /// The type parameters.
    Generics,
    /// The trait that is implemented.
    Trait,
    /// The name of a method.
    Method(usize),
    /// The parameters of a method.
    Inputs(usize),
    /// One parameter of a method.
    Parameter(usize, usize),
    /// An attribute of a method.
    DebugAttribute(usize, usize),
    /// One of the arguments of an attribute of a method.
    DebugArgument(usize, usize),
    /// The attribute that routes messages to a method.
    RouteAttribute(usize),
    /// One of the arguments of the attribute that routes messages to a method.
    RouteArgument(usize, usize),
    /// What a function returns.
    Output,
}

/// What is refused.
#[verifier::ext_equal]
pub struct FaultView {
    pub spot: Spot,
    pub text: Seq<char>,
}

impl View for Fault {
    type V = FaultView;

    open spec fn view(&self) -> FaultView {
        FaultView { spot: self.spot, text: self.text@ }
    }
}

impl Fault {
    /// Refuses a part of the code.
    pub fn new(spot: Spot, text: &str) -> (fault: Fault)
        ensures
            fault@ == (FaultView { spot, text: text@ }),
    {
        Fault { spot, text: text.to_owned() }
    }
}

/// What is refused.
pub open spec fn fault(spot: Spot, text: Seq<char>) -> FaultView {
    FaultView { spot, text }
}

impl TypeShape {
    /// Whether the type is a whole message.
    pub open spec fn message(self) -> bool {
        match self {
            TypeShape::Path { last, bare } => last@ == "Message"@ && bare,
            _ => false,
        }
    }

    /// Whether the type is a whole message. Only the last part counts.
    pub fn is_message(&self) -> (message: bool)
        ensures
            message == self.message(),
    {
        match self {
            TypeShape::Path { last, bare } => *bare && same_text(last.as_str(), "Message"),
            _ => false,
        }
    }
}

/// Whether a function gives something back.
pub open spec fn replies(output: Option<TypeShape>) -> bool {
    output is Some && !(output->Some_0 is Unit)
}

/// Whether a function gives something back. Nothing and `()` are the same.
pub fn gives_back(output: &Option<TypeShape>) -> (gives: bool)
    ensures
        gives == replies(*output),
{
    match output {
        None => false,
        Some(TypeShape::Unit) => false,
        Some(_) => true,
    }
}

/// How many parameters there are besides `self`.
pub open spec fn typed_count(inputs: Seq<Input>) -> nat
    decreases inputs.len(),
{
    if inputs.len() == 0 {
        0
    } else {
        typed_count(inputs.drop_last()) + if inputs.last() is Typed {
            1nat
        } else {
            0nat
        }
    }
}

/// The place of a parameter besides `self`, counted without it.
pub open spec fn typed_place(inputs: Seq<Input>, nth: nat) -> Option<int>
    decreases inputs.len(),
{
    if inputs.len() == 0 {
        None
    } else if inputs.last() is Typed && typed_count(inputs.drop_last()) == nth {
        Some(inputs.len() - 1)
    } else {
        typed_place(inputs.drop_last(), nth)
    }
}

/// Counts the parameters besides `self`.
pub fn count_typed(inputs: &Vec<Input>) -> (count: usize)
    ensures
        count == typed_count(inputs@),
{
    let mut count: usize = 0;
    let mut i: usize = 0;
    assert(inputs@.take(0) =~= Seq::empty());
    while i < inputs.len()
        invariant
            i <= inputs@.len(),
            count <= i,
            count == typed_count(inputs@.take(i as int)),
        decreases inputs@.len() - i,
    {
        assert(inputs@.take(i + 1).drop_last() =~= inputs@.take(i as int));
        match &inputs[i] {
            Input::Typed(_) => {
                count += 1;
            },
            _ => {},
        }
        i += 1;
    }
    assert(inputs@.take(i as int) =~= inputs@);
    count
}

/// Finds a parameter besides `self`.
pub fn find_typed(inputs: &Vec<Input>, nth: usize) -> (place: Option<usize>)
    ensures
        match place {
            Some(place) => place < inputs@.len() && inputs@[place as int] is Typed && typed_place(
                inputs@,
                nth as nat,
            ) == Some(place as int),
            None => typed_place(inputs@, nth as nat) is None,
        },
{
    let mut found: Option<usize> = None;
    let mut count: usize = 0;
    let mut i: usize = 0;
    assert(inputs@.take(0) =~= Seq::empty());
    while i < inputs.len()
        invariant
            i <= inputs@.len(),
            count <= i,
            count == typed_count(inputs@.take(i as int)),
            match found {
                Some(place) => place < i && inputs@[place as int] is Typed && typed_place(
                    inputs@.take(i as int),
                    nth as nat,
                ) == Some(place as int),
                None => typed_place(inputs@.take(i as int), nth as nat) is None,
            },
        decreases inputs@.len() - i,
    {
        assert(inputs@.take(i + 1).drop_last() =~= inputs@.take(i as int));
        match &inputs[i] {
            Input::Typed(_) => {
                if count == nth {
                    found = Some(i);
                }
                count += 1;
            },
            _ => {},
        }
        i += 1;
    }
    assert(inputs@.take(i as int) =~= inputs@);
    found
}

} // verus!
